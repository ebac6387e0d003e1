//! The C++ side of the generated code: the names of types at the boundary,
//! the host functions of the methods, and the templates that carry values
//! of named and nullable types across the boundary.

use crate::check::{lemma_alias_view, lemma_function_view, signature_ok, well_formed};
use crate::rust::{label, label_of};
use crate::schema::{
    method_views, AliasView, EnumAlias, EnumView, MemberView, Method, MethodView, ObjectAlias,
    ParamView, PrimitiveKind, PropertyView, Schema, TypeAnnotation, TypeView,
};
use crate::text::{
    decimal, decimal_string, flat_case, flat_case_of, join, join_strings, lemma_views_push,
    pascal_case, pascal_case_of, snake_case, snake_case_of, views,
};
use vstd::prelude::*;
use vstd::string::StringExecFns;

verus! {

/// The namespace in which the module's types stand at the boundary.
pub open spec fn namespace_of(module: Seq<char>) -> Seq<char> {
    "craby::"@ + flat_case_of(module) + "::"@
}

/// The C++ name of a primitive type.
pub open spec fn primitive_cxx(k: PrimitiveKind) -> Seq<char> {
    match k {
        PrimitiveKind::Boolean => "bool"@,
        PrimitiveKind::Number => "double"@,
        PrimitiveKind::String => "rust::String"@,
        PrimitiveKind::Void => "void"@,
    }
}

/// The name at the boundary of a primitive or named type: a named type
/// stands in the module's namespace.
pub open spec fn cxx_value_of(module: Seq<char>, t: TypeView) -> Seq<char> {
    match t {
        TypeView::Primitive(k) => primitive_cxx(k),
        TypeView::ObjectAlias(a) => namespace_of(module) + a.name,
        TypeView::EnumAlias(e) => namespace_of(module) + e.name,
        _ => Seq::empty(),
    }
}

/// The name of the wrapper type of a nullable type whose wrapped type has
/// this label.
pub open spec fn wrapper_of(module: Seq<char>, label: Seq<char>) -> Seq<char> {
    namespace_of(module) + "Nullable"@ + label
}

/// The name of a type at the boundary.
pub open spec fn cxx_type_of(module: Seq<char>, t: TypeView) -> Seq<char> {
    match t {
        TypeView::Nullable(inner) => wrapper_of(module, label_of(*inner)),
        _ => cxx_value_of(module, t),
    }
}

/// The host function of a method and how it is registered.
#[derive(Debug, PartialEq, Eq)]
pub struct CxxMethod {
    pub name: String,
    pub impl_func: String,
    pub metadata: String,
}

pub struct CxxMethodView {
    pub name: Seq<char>,
    pub impl_func: Seq<char>,
    pub metadata: Seq<char>,
}

impl View for CxxMethod {
    type V = CxxMethodView;

    open spec fn view(&self) -> CxxMethodView {
        CxxMethodView { name: self.name@, impl_func: self.impl_func@, metadata: self.metadata@ }
    }
}

/// The views of a list of host functions.
pub open spec fn cxx_method_views(list: Seq<CxxMethod>) -> Seq<CxxMethodView> {
    Seq::new(list.len(), |i: int| list[i]@)
}

/// The name of the class that holds the module's host functions.
pub open spec fn class_name_of(module: Seq<char>) -> Seq<char> {
    "Cxx"@ + pascal_case_of(module) + "Module"@
}

/// The line that reads argument `i` of a host function.
pub open spec fn read_arg_of(module: Seq<char>, p: ParamView, i: int) -> Seq<char> {
    "  auto arg"@ + decimal(i as nat) + " = react::bridging::fromJs<"@ + cxx_type_of(
        module,
        p.type_annotation,
    ) + ">(rt, args["@ + decimal(i as nat) + "]);\n"@
}

/// The names of the first `n` arguments, separated by commas.
pub open spec fn call_args_of(n: nat) -> Seq<char> {
    join(Seq::new(n, |i: int| "arg"@ + decimal(i as nat)), ", "@)
}

/// The host function of a method: it checks the number of arguments, reads
/// each of them, calls the bridge function and hands the result back.
pub open spec fn impl_func_of(module: Seq<char>, m: MethodView) -> Seq<char> {
    let params = m.type_annotation->params;
    let head = "jsi::Value "@ + class_name_of(module) + "::"@ + m.name
        + "(jsi::Runtime &rt, const jsi::Value args[], size_t count) {\n  if (count != "@ + decimal(
        params.len(),
    ) + ") {\n    throw jsi::JSError(rt, \"Expected "@ + decimal(params.len())
        + " argument(s)\");\n  }\n"@ + join(
        Seq::new(params.len(), |i: int| read_arg_of(module, params[i], i)),
        ""@,
    );
    if *m.type_annotation->return_type == TypeView::Primitive(PrimitiveKind::Void) {
        head + "  "@ + namespace_of(module) + m.name + "("@ + call_args_of(params.len())
            + ");\n  return jsi::Value::undefined();\n}"@
    } else {
        head + "  auto ret = "@ + namespace_of(module) + m.name + "("@ + call_args_of(params.len())
            + ");\n  return react::bridging::toJs(rt, ret);\n}"@
    }
}

/// How the host function of a method is registered.
pub open spec fn metadata_of(module: Seq<char>, m: MethodView) -> Seq<char> {
    "MethodMetadata{"@ + decimal(m.type_annotation->params.len()) + ", &"@ + class_name_of(module)
        + "::"@ + m.name + "}"@
}

/// The host function of a method, with its name and registration.
pub open spec fn cxx_method_of(module: Seq<char>, m: MethodView) -> CxxMethodView {
    CxxMethodView {
        name: m.name,
        impl_func: impl_func_of(module, m),
        metadata: metadata_of(module, m),
    }
}

/// The line that reads one property of an alias.
pub open spec fn from_line_of(module: Seq<char>, p: PropertyView) -> Seq<char> {
    "    ret."@ + snake_case_of(p.name) + " = react::bridging::fromJs<"@ + cxx_type_of(
        module,
        p.type_annotation,
    ) + ">(rt, obj.getProperty(rt, \""@ + p.name + "\"));\n"@
}

/// The line that writes one property of an alias.
pub open spec fn to_line_of(p: PropertyView) -> Seq<char> {
    "    obj.setProperty(rt, \""@ + p.name + "\", react::bridging::toJs(rt, value."@
        + snake_case_of(p.name) + "));\n"@
}

/// The template that carries an alias across the boundary.
pub open spec fn struct_template_of(module: Seq<char>, a: AliasView) -> Seq<char> {
    let t = namespace_of(module) + a.name;
    "template <>\nstruct Bridging<"@ + t + "> {\n  static "@ + t
        + " fromJs(jsi::Runtime &rt, const jsi::Value &value) {\n    auto obj = value.asObject(rt);\n    "@
        + t + " ret;\n"@ + join(
        Seq::new(a.properties.len(), |i: int| from_line_of(module, a.properties[i])),
        ""@,
    ) + "    return ret;\n  }\n\n  static jsi::Value toJs(jsi::Runtime &rt, const "@ + t
        + " &value) {\n    jsi::Object obj(rt);\n"@ + join(
        Seq::new(a.properties.len(), |i: int| to_line_of(a.properties[i])),
        ""@,
    ) + "    return jsi::Value(rt, obj);\n  }\n};"@
}

/// The lines that turn one literal into its enum member.
pub open spec fn from_case_of(t: Seq<char>, m: MemberView) -> Seq<char> {
    "    if (raw == \""@ + m.value + "\") {\n      return "@ + t + "::"@ + pascal_case_of(m.name)
        + ";\n    }\n"@
}

/// The lines that turn one enum member into its literal.
pub open spec fn to_case_of(t: Seq<char>, m: MemberView) -> Seq<char> {
    "      case "@ + t + "::"@ + pascal_case_of(m.name)
        + ":\n        return jsi::String::createFromUtf8(rt, \""@ + m.value + "\");\n"@
}

/// The template that carries an enum across the boundary.
pub open spec fn enum_template_of(module: Seq<char>, e: EnumView) -> Seq<char> {
    let t = namespace_of(module) + e.name;
    "template <>\nstruct Bridging<"@ + t + "> {\n  static "@ + t
        + " fromJs(jsi::Runtime &rt, const jsi::Value &value) {\n    auto raw = value.asString(rt).utf8(rt);\n"@
        + join(Seq::new(e.members.len(), |i: int| from_case_of(t, e.members[i])), ""@)
        + "    throw jsi::JSError(rt, \"Invalid value for "@ + e.name
        + "\");\n  }\n\n  static jsi::Value toJs(jsi::Runtime &rt, "@ + t
        + " value) {\n    switch (value) {\n"@ + join(
        Seq::new(e.members.len(), |i: int| to_case_of(t, e.members[i])),
        ""@,
    ) + "    }\n    throw jsi::JSError(rt, \"Invalid value for "@ + e.name + "\");\n  }\n};"@
}

/// The template that carries a nullable type across the boundary; `label`
/// is the word for the wrapped type and `inner` its name at the boundary.
pub open spec fn nullable_template_of(module: Seq<char>, label: Seq<char>, inner: Seq<char>) -> Seq<
    char,
> {
    let w = wrapper_of(module, label);
    "template <>\nstruct Bridging<"@ + w + "> {\n  static "@ + w
        + " fromJs(jsi::Runtime &rt, const jsi::Value &value) {\n    if (value.isNull() || value.isUndefined()) {\n      return "@
        + w + "{true, {}};\n    }\n    return "@ + w + "{false, react::bridging::fromJs<"@ + inner
        + ">(rt, value)};\n  }\n\n  static jsi::Value toJs(jsi::Runtime &rt, const "@ + w
        + " &value) {\n    if (value.null) {\n      return jsi::Value::null();\n    }\n    return react::bridging::toJs(rt, value.val);\n  }\n};"@
}

/// The namespace in which the module's types stand at the boundary.
pub fn namespace(module_name: &String) -> (out: String)
    ensures
        out@ == namespace_of(module_name@),
{
    let mut out = String::from_str("craby::");
    out.append(flat_case(module_name.as_str()).as_str());
    out.append("::");
    out
}

/// The C++ name of a primitive type.
pub fn primitive_name(k: PrimitiveKind) -> (out: &'static str)
    ensures
        out@ == primitive_cxx(k),
{
    match k {
        PrimitiveKind::Boolean => "bool",
        PrimitiveKind::Number => "double",
        PrimitiveKind::String => "rust::String",
        PrimitiveKind::Void => "void",
    }
}

fn cxx_value(module_name: &String, t: &TypeAnnotation) -> (out: String)
    ensures
        out@ == cxx_value_of(module_name@, t@),
{
    match t {
        TypeAnnotation::Primitive(k) => String::from_str(primitive_name(*k)),
        TypeAnnotation::ObjectAlias(a) => {
            assert(t@ == TypeView::ObjectAlias(a@));
            let mut out = namespace(module_name);
            out.append(a.name.as_str());
            out
        },
        TypeAnnotation::EnumAlias(e) => {
            assert(t@ == TypeView::EnumAlias(e@));
            let mut out = namespace(module_name);
            out.append(e.name.as_str());
            out
        },
        _ => String::new(),
    }
}

/// The name of a type at the boundary.
pub fn cxx_type(module_name: &String, t: &TypeAnnotation) -> (out: String)
    ensures
        out@ == cxx_type_of(module_name@, t@),
{
    match t {
        TypeAnnotation::Nullable(inner) => {
            assert(t@ == TypeView::Nullable(Box::new(inner@)));
            let mut out = namespace(module_name);
            out.append("Nullable");
            out.append(label(inner).as_str());
            out
        },
        _ => cxx_value(module_name, t),
    }
}

/// The name of the class that holds the module's host functions.
pub fn class_name(module_name: &String) -> (out: String)
    ensures
        out@ == class_name_of(module_name@),
{
    let mut out = String::from_str("Cxx");
    out.append(pascal_case(module_name.as_str()).as_str());
    out.append("Module");
    out
}

fn call_args(n: usize) -> (out: String)
    ensures
        out@ == call_args_of(n as nat),
{
    let ghost target = Seq::new(n as nat, |i: int| "arg"@ + decimal(i as nat));
    let mut parts: Vec<String> = Vec::new();
    let mut i: usize = 0;
    while i < n
        invariant
            i <= n,
            target == Seq::new(n as nat, |k: int| "arg"@ + decimal(k as nat)),
            views(parts@) == target.take(i as int),
        decreases n - i,
    {
        let mut part = String::from_str("arg");
        part.append(decimal_string(i).as_str());
        proof {
            lemma_views_push(parts@, part);
            assert(target.take(i + 1) == target.take(i as int).push(target[i as int]));
        }
        parts.push(part);
        i += 1;
    }
    assert(target.take(n as int) == target);
    join_strings(&parts, ", ")
}

/// The host function of a method whose type is a function type, with its
/// name and registration.
pub(crate) fn render_cxx_method(module_name: &String, method: &Method) -> (out: CxxMethod)
    requires
        method@.type_annotation is Function,
    ensures
        out@ == cxx_method_of(module_name@, method@),
{
    match &method.type_annotation {
        TypeAnnotation::Function { params, return_type } => {
            proof {
                lemma_function_view(method.type_annotation);
            }
            let ghost pv = method@.type_annotation->params;
            let ghost target = Seq::new(pv.len(), |i: int| read_arg_of(module_name@, pv[i], i));
            let mut reads: Vec<String> = Vec::new();
            let mut i: usize = 0;
            while i < params.len()
                invariant
                    i <= params.len(),
                    pv.len() == params.len(),
                    forall|k: int|
                        0 <= k < params.len() ==> (#[trigger] pv[k]).type_annotation
                            == params[k].type_annotation@,
                    target == Seq::new(pv.len(), |k: int| read_arg_of(module_name@, pv[k], k)),
                    views(reads@) == target.take(i as int),
                decreases params.len() - i,
            {
                let number = decimal_string(i);
                let mut line = String::from_str("  auto arg");
                line.append(number.as_str());
                line.append(" = react::bridging::fromJs<");
                line.append(cxx_type(module_name, &params[i].type_annotation).as_str());
                line.append(">(rt, args[");
                line.append(number.as_str());
                line.append("]);\n");
                proof {
                    assert(pv[i as int].type_annotation == params[i as int].type_annotation@);
                    lemma_views_push(reads@, line);
                    assert(target.take(i + 1) == target.take(i as int).push(target[i as int]));
                }
                reads.push(line);
                i += 1;
            }
            assert(target.take(params.len() as int) == target);
            let count = decimal_string(params.len());
            let class = class_name(module_name);
            let mut impl_func = String::from_str("jsi::Value ");
            impl_func.append(class.as_str());
            impl_func.append("::");
            impl_func.append(method.name.as_str());
            impl_func.append(
                "(jsi::Runtime &rt, const jsi::Value args[], size_t count) {\n  if (count != ",
            );
            impl_func.append(count.as_str());
            impl_func.append(") {\n    throw jsi::JSError(rt, \"Expected ");
            impl_func.append(count.as_str());
            impl_func.append(" argument(s)\");\n  }\n");
            impl_func.append(join_strings(&reads, "").as_str());
            let is_void = match &**return_type {
                TypeAnnotation::Primitive(k) => match k {
                    PrimitiveKind::Void => true,
                    _ => false,
                },
                _ => false,
            };
            assert(is_void == (return_type@ == TypeView::Primitive(PrimitiveKind::Void)));
            if is_void {
                impl_func.append("  ");
                impl_func.append(namespace(module_name).as_str());
                impl_func.append(method.name.as_str());
                impl_func.append("(");
                impl_func.append(call_args(params.len()).as_str());
                impl_func.append(");\n  return jsi::Value::undefined();\n}");
            } else {
                impl_func.append("  auto ret = ");
                impl_func.append(namespace(module_name).as_str());
                impl_func.append(method.name.as_str());
                impl_func.append("(");
                impl_func.append(call_args(params.len()).as_str());
                impl_func.append(");\n  return react::bridging::toJs(rt, ret);\n}");
            }
            let mut metadata = String::from_str("MethodMetadata{");
            metadata.append(count.as_str());
            metadata.append(", &");
            metadata.append(class.as_str());
            metadata.append("::");
            metadata.append(method.name.as_str());
            metadata.append("}");
            CxxMethod { name: method.name.clone(), impl_func, metadata }
        },
        _ => CxxMethod { name: String::new(), impl_func: String::new(), metadata: String::new() },
    }
}

/// The host functions of a schema in which every method has a function
/// type.
pub(crate) fn render_cxx_methods(schema: &Schema) -> (out: Vec<CxxMethod>)
    requires
        well_formed(schema@),
    ensures
        cxx_method_views(out@) == Seq::new(
            schema@.methods.len(),
            |i: int| cxx_method_of(schema@.module_name, schema@.methods[i]),
        ),
{
    let methods = schema.methods();
    let module_name = schema.module_name();
    let ghost target = Seq::new(
        schema@.methods.len(),
        |i: int| cxx_method_of(schema@.module_name, schema@.methods[i]),
    );
    let mut out: Vec<CxxMethod> = Vec::new();
    let mut i: usize = 0;
    while i < methods.len()
        invariant
            i <= methods.len(),
            well_formed(schema@),
            method_views(methods@) == schema@.methods,
            module_name@ == schema@.module_name,
            target == Seq::new(
                schema@.methods.len(),
                |k: int| cxx_method_of(schema@.module_name, schema@.methods[k]),
            ),
            cxx_method_views(out@) == target.take(i as int),
        decreases methods.len() - i,
    {
        assert(schema@.methods[i as int] == methods[i as int]@);
        assert(signature_ok(schema@.methods[i as int].type_annotation));
        let m = render_cxx_method(module_name, &methods[i]);
        proof {
            assert(cxx_method_views(out@.push(m)) =~= cxx_method_views(out@).push(m@));
            assert(target.take(i + 1) == target.take(i as int).push(target[i as int]));
        }
        out.push(m);
        i += 1;
    }
    assert(target.take(methods.len() as int) == target);
    out
}

/// The template that carries an alias across the boundary.
pub fn render_struct_template(module_name: &String, a: &ObjectAlias) -> (out: String)
    ensures
        out@ == struct_template_of(module_name@, a@),
{
    proof {
        lemma_alias_view(*a);
    }
    let ghost av = a@;
    let ghost from_target = Seq::new(
        av.properties.len(),
        |i: int| from_line_of(module_name@, av.properties[i]),
    );
    let ghost to_target = Seq::new(av.properties.len(), |i: int| to_line_of(av.properties[i]));
    let mut from_lines: Vec<String> = Vec::new();
    let mut to_lines: Vec<String> = Vec::new();
    let mut i: usize = 0;
    while i < a.properties.len()
        invariant
            i <= a.properties.len(),
            av == a@,
            av.properties.len() == a.properties.len(),
            forall|k: int|
                0 <= k < a.properties.len() ==> (#[trigger] av.properties[k]).type_annotation
                    == a.properties[k].type_annotation@ && av.properties[k].name
                    == a.properties[k].name@,
            from_target == Seq::new(
                av.properties.len(),
                |k: int| from_line_of(module_name@, av.properties[k]),
            ),
            to_target == Seq::new(av.properties.len(), |k: int| to_line_of(av.properties[k])),
            views(from_lines@) == from_target.take(i as int),
            views(to_lines@) == to_target.take(i as int),
        decreases a.properties.len() - i,
    {
        let p = &a.properties[i];
        let field = snake_case(p.name.as_str());
        let mut from_line = String::from_str("    ret.");
        from_line.append(field.as_str());
        from_line.append(" = react::bridging::fromJs<");
        from_line.append(cxx_type(module_name, &p.type_annotation).as_str());
        from_line.append(">(rt, obj.getProperty(rt, \"");
        from_line.append(p.name.as_str());
        from_line.append("\"));\n");
        let mut to_line = String::from_str("    obj.setProperty(rt, \"");
        to_line.append(p.name.as_str());
        to_line.append("\", react::bridging::toJs(rt, value.");
        to_line.append(field.as_str());
        to_line.append("));\n");
        proof {
            assert(av.properties[i as int].name == p.name@);
            assert(av.properties[i as int].type_annotation == p.type_annotation@);
            lemma_views_push(from_lines@, from_line);
            lemma_views_push(to_lines@, to_line);
            assert(from_target.take(i + 1) == from_target.take(i as int).push(
                from_target[i as int],
            ));
            assert(to_target.take(i + 1) == to_target.take(i as int).push(to_target[i as int]));
        }
        from_lines.push(from_line);
        to_lines.push(to_line);
        i += 1;
    }
    assert(from_target.take(a.properties.len() as int) == from_target);
    assert(to_target.take(a.properties.len() as int) == to_target);
    let mut t = namespace(module_name);
    t.append(a.name.as_str());
    let mut out = String::from_str("template <>\nstruct Bridging<");
    out.append(t.as_str());
    out.append("> {\n  static ");
    out.append(t.as_str());
    out.append(
        " fromJs(jsi::Runtime &rt, const jsi::Value &value) {\n    auto obj = value.asObject(rt);\n    ",
    );
    out.append(t.as_str());
    out.append(" ret;\n");
    out.append(join_strings(&from_lines, "").as_str());
    out.append("    return ret;\n  }\n\n  static jsi::Value toJs(jsi::Runtime &rt, const ");
    out.append(t.as_str());
    out.append(" &value) {\n    jsi::Object obj(rt);\n");
    out.append(join_strings(&to_lines, "").as_str());
    out.append("    return jsi::Value(rt, obj);\n  }\n};");
    out
}

/// The template that carries an enum across the boundary.
pub fn render_enum_template(module_name: &String, e: &EnumAlias) -> (out: String)
    ensures
        out@ == enum_template_of(module_name@, e@),
{
    let mut t = namespace(module_name);
    t.append(e.name.as_str());
    let ghost ev = e@;
    let ghost from_target = Seq::new(ev.members.len(), |i: int| from_case_of(t@, ev.members[i]));
    let ghost to_target = Seq::new(ev.members.len(), |i: int| to_case_of(t@, ev.members[i]));
    let mut from_cases: Vec<String> = Vec::new();
    let mut to_cases: Vec<String> = Vec::new();
    let mut i: usize = 0;
    while i < e.members.len()
        invariant
            i <= e.members.len(),
            ev == e@,
            from_target == Seq::new(ev.members.len(), |k: int| from_case_of(t@, ev.members[k])),
            to_target == Seq::new(ev.members.len(), |k: int| to_case_of(t@, ev.members[k])),
            views(from_cases@) == from_target.take(i as int),
            views(to_cases@) == to_target.take(i as int),
        decreases e.members.len() - i,
    {
        let m = &e.members[i];
        let member = pascal_case(m.name.as_str());
        let mut from_case = String::from_str("    if (raw == \"");
        from_case.append(m.value.as_str());
        from_case.append("\") {\n      return ");
        from_case.append(t.as_str());
        from_case.append("::");
        from_case.append(member.as_str());
        from_case.append(";\n    }\n");
        let mut to_case = String::from_str("      case ");
        to_case.append(t.as_str());
        to_case.append("::");
        to_case.append(member.as_str());
        to_case.append(":\n        return jsi::String::createFromUtf8(rt, \"");
        to_case.append(m.value.as_str());
        to_case.append("\");\n");
        proof {
            lemma_views_push(from_cases@, from_case);
            lemma_views_push(to_cases@, to_case);
            assert(from_target.take(i + 1) == from_target.take(i as int).push(
                from_target[i as int],
            ));
            assert(to_target.take(i + 1) == to_target.take(i as int).push(to_target[i as int]));
        }
        from_cases.push(from_case);
        to_cases.push(to_case);
        i += 1;
    }
    assert(from_target.take(e.members.len() as int) == from_target);
    assert(to_target.take(e.members.len() as int) == to_target);
    let mut out = String::from_str("template <>\nstruct Bridging<");
    out.append(t.as_str());
    out.append("> {\n  static ");
    out.append(t.as_str());
    out.append(
        " fromJs(jsi::Runtime &rt, const jsi::Value &value) {\n    auto raw = value.asString(rt).utf8(rt);\n",
    );
    out.append(join_strings(&from_cases, "").as_str());
    out.append("    throw jsi::JSError(rt, \"Invalid value for ");
    out.append(e.name.as_str());
    out.append("\");\n  }\n\n  static jsi::Value toJs(jsi::Runtime &rt, ");
    out.append(t.as_str());
    out.append(" value) {\n    switch (value) {\n");
    out.append(join_strings(&to_cases, "").as_str());
    out.append("    }\n    throw jsi::JSError(rt, \"Invalid value for ");
    out.append(e.name.as_str());
    out.append("\");\n  }\n};");
    out
}

/// The template that carries a nullable type across the boundary.
pub fn render_nullable_template(module_name: &String, label: &str, inner: &str) -> (out: String)
    ensures
        out@ == nullable_template_of(module_name@, label@, inner@),
{
    let mut w = namespace(module_name);
    w.append("Nullable");
    w.append(label);
    let mut out = String::from_str("template <>\nstruct Bridging<");
    out.append(w.as_str());
    out.append("> {\n  static ");
    out.append(w.as_str());
    out.append(
        " fromJs(jsi::Runtime &rt, const jsi::Value &value) {\n    if (value.isNull() || value.isUndefined()) {\n      return ",
    );
    out.append(w.as_str());
    out.append("{true, {}};\n    }\n    return ");
    out.append(w.as_str());
    out.append("{false, react::bridging::fromJs<");
    out.append(inner);
    out.append(">(rt, value)};\n  }\n\n  static jsi::Value toJs(jsi::Runtime &rt, const ");
    out.append(w.as_str());
    out.append(
        " &value) {\n    if (value.null) {\n      return jsi::Value::null();\n    }\n    return react::bridging::toJs(rt, value.val);\n  }\n};",
    );
    out
}

} // verus!
