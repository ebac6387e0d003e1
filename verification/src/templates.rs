//! The bridging templates of a schema and their order: the enums first,
//! then every named type in the order of emission, each alias followed by
//! its nullable wrapper where one is used, and last the wrappers of
//! primitive types.

use crate::check::{
    alias_ok, alias_resolved, declares_alias, declares_enum, is_data, is_result, lemma_alias_view,
    lemma_function_view, resolved, schema_error, signature_ok, signature_resolved, type_resolved,
    well_formed,
};
use crate::cxx::{
    enum_template_of, namespace, namespace_of, nullable_template_of, primitive_cxx, primitive_name,
    render_enum_template, render_nullable_template, render_struct_template, struct_template_of,
};
use crate::deps::{
    alias_order, depends, lemma_alias_order_sound, lemma_dependency_stands_before,
    lemma_order_exists_iff_acyclic,
};
use crate::rust::label_of;
use crate::schema::{
    alias_views, enum_views, index_view, lemma_names_distinct, method_views, name_of_type,
    names_distinct, AliasView, Method, ObjectAlias, PrimitiveKind, Schema, SchemaView,
    TypeAnnotation, TypeView,
};
use crate::text::{lemma_views_push, views};
use vstd::prelude::*;
use vstd::string::StringExecFns;

verus! {

/// What a nullable type wraps: a primitive type, or a named type by its
/// name.
#[derive(Debug)]
pub enum Wrapped {
    Primitive(PrimitiveKind),
    Named(String),
}

pub enum WrappedView {
    Primitive(PrimitiveKind),
    Named(Seq<char>),
}

impl View for Wrapped {
    type V = WrappedView;

    open spec fn view(&self) -> WrappedView {
        match self {
            Wrapped::Primitive(k) => WrappedView::Primitive(*k),
            Wrapped::Named(name) => WrappedView::Named(name@),
        }
    }
}

/// What `t` wraps, where it is a nullable wrapper of a primitive or named
/// type.
pub open spec fn wrapped_of(t: TypeView) -> Option<WrappedView> {
    match t {
        TypeView::Nullable(inner) => match *inner {
            TypeView::Primitive(k) => Some(WrappedView::Primitive(k)),
            TypeView::ObjectAlias(a) => Some(WrappedView::Named(a.name)),
            TypeView::EnumAlias(e) => Some(WrappedView::Named(e.name)),
            _ => None,
        },
        _ => None,
    }
}

/// A parameter of the function type, or its result, is a nullable wrapper
/// of `w`.
pub open spec fn signature_wraps(t: TypeView, w: WrappedView) -> bool {
    t matches TypeView::Function { params, return_type } && ((exists|i: int|
        0 <= i < params.len() && wrapped_of((#[trigger] params[i]).type_annotation) == Some(w))
        || wrapped_of(*return_type) == Some(w))
}

/// A property of the alias is a nullable wrapper of `w`.
pub open spec fn alias_wraps(a: AliasView, w: WrappedView) -> bool {
    exists|i: int|
        0 <= i < a.properties.len() && wrapped_of((#[trigger] a.properties[i]).type_annotation)
            == Some(w)
}

/// Somewhere in the parameters and results of the methods or in the
/// properties of the aliases stands a nullable wrapper of `w`.
pub open spec fn schema_wraps(s: SchemaView, w: WrappedView) -> bool {
    (exists|m: int|
        0 <= m < s.methods.len() && signature_wraps((#[trigger] s.methods[m]).type_annotation, w))
        || (exists|a: int| 0 <= a < s.aliases.len() && alias_wraps(#[trigger] s.aliases[a], w))
}

/// The kinds of bridging template.
pub enum TemplateKind {
    Enum,
    Struct,
    Nullable,
}

/// One bridging template: its kind, the type it is for (for a nullable
/// wrapper: the type that is wrapped), and its text.
pub struct TemplateEntry {
    pub kind: TemplateKind,
    pub subject: WrappedView,
    pub text: Seq<char>,
}

/// The text of the nullable wrapper of `w`.
pub open spec fn nullable_text_of(module: Seq<char>, w: WrappedView) -> Seq<char> {
    match w {
        WrappedView::Primitive(k) => nullable_template_of(
            module,
            label_of(TypeView::Primitive(k)),
            primitive_cxx(k),
        ),
        WrappedView::Named(name) => nullable_template_of(module, name, namespace_of(module) + name),
    }
}

/// The template of the nullable wrapper of `w`, where the schema uses one.
pub open spec fn nullable_entry(s: SchemaView, w: WrappedView) -> Seq<TemplateEntry> {
    if schema_wraps(s, w) {
        seq![
            TemplateEntry {
                kind: TemplateKind::Nullable,
                subject: w,
                text: nullable_text_of(s.module_name, w),
            },
        ]
    } else {
        Seq::empty()
    }
}

/// The template of enum `e`.
pub open spec fn enum_entry(s: SchemaView, e: int) -> TemplateEntry {
    TemplateEntry {
        kind: TemplateKind::Enum,
        subject: WrappedView::Named(s.enums[e].name),
        text: enum_template_of(s.module_name, s.enums[e]),
    }
}

/// The template of alias `a`.
pub open spec fn struct_entry(s: SchemaView, a: int) -> TemplateEntry {
    TemplateEntry {
        kind: TemplateKind::Struct,
        subject: WrappedView::Named(s.aliases[a].name),
        text: struct_template_of(s.module_name, s.aliases[a]),
    }
}

/// The templates of the enums among the first `k` named types in the order
/// of their names.
pub open spec fn enum_entries(s: SchemaView, k: int) -> Seq<TemplateEntry>
    decreases k,
{
    if k <= 0 {
        Seq::empty()
    } else {
        let head = enum_entries(s, k - 1);
        let t = s.by_name[k - 1];
        if 0 <= t < s.enums.len() {
            head.push(enum_entry(s, t))
        } else {
            head
        }
    }
}

/// The nullable wrappers of the first `k` enums in declaration order.
pub open spec fn enum_wrappers(s: SchemaView, k: int) -> Seq<TemplateEntry>
    decreases k,
{
    if k <= 0 {
        Seq::empty()
    } else {
        enum_wrappers(s, k - 1) + nullable_entry(s, WrappedView::Named(s.enums[k - 1].name))
    }
}

/// The templates of the first `k` aliases of `order`, each followed by its
/// nullable wrapper.
pub open spec fn alias_entries(s: SchemaView, order: Seq<int>, k: int) -> Seq<TemplateEntry>
    decreases k,
{
    if k <= 0 {
        Seq::empty()
    } else {
        alias_entries(s, order, k - 1).push(struct_entry(s, order[k - 1])) + nullable_entry(
            s,
            WrappedView::Named(s.aliases[order[k - 1]].name),
        )
    }
}

/// The nullable wrappers of the primitive types, in the order of their
/// names at the boundary.
pub open spec fn primitive_wrappers(s: SchemaView) -> Seq<TemplateEntry> {
    nullable_entry(s, WrappedView::Primitive(PrimitiveKind::Boolean)) + nullable_entry(
        s,
        WrappedView::Primitive(PrimitiveKind::Number),
    ) + nullable_entry(s, WrappedView::Primitive(PrimitiveKind::String))
}

/// The bridging templates of a schema whose aliases stand in `order`.
pub open spec fn entries_in_order(s: SchemaView, order: Seq<int>) -> Seq<TemplateEntry> {
    enum_entries(s, s.by_name.len() as int) + enum_wrappers(s, s.enums.len() as int)
        + alias_entries(s, order, order.len() as int) + primitive_wrappers(s)
}

/// The texts of a list of templates.
pub open spec fn texts_of(entries: Seq<TemplateEntry>) -> Seq<Seq<char>> {
    Seq::new(entries.len(), |i: int| entries[i].text)
}

/// The bridging templates of a schema: all that it has where its aliases
/// can be ordered, none where they cannot.
pub open spec fn template_entries(s: SchemaView) -> Seq<TemplateEntry> {
    match alias_order(s.aliases) {
        Some(order) => entries_in_order(s, order),
        None => Seq::empty(),
    }
}

/// The texts of the bridging templates of a schema.
pub open spec fn templates_of(s: SchemaView) -> Seq<Seq<char>> {
    texts_of(template_entries(s))
}

/// The template is the nullable wrapper of `w`.
pub open spec fn is_wrapper_of(e: TemplateEntry, w: WrappedView) -> bool {
    e.kind is Nullable && e.subject == w
}

/// How many of the templates are nullable wrappers of `w`.
pub open spec fn wrapper_count(entries: Seq<TemplateEntry>, w: WrappedView) -> nat
    decreases entries.len(),
{
    if entries.len() == 0 {
        0
    } else {
        wrapper_count(entries.drop_last(), w) + (if is_wrapper_of(entries.last(), w) {
            1nat
        } else {
            0nat
        })
    }
}

proof fn lemma_count_concat(a: Seq<TemplateEntry>, b: Seq<TemplateEntry>, w: WrappedView)
    ensures
        wrapper_count(a + b, w) == wrapper_count(a, w) + wrapper_count(b, w),
    decreases b.len(),
{
    if b.len() == 0 {
        assert(a + b =~= a);
    } else {
        assert((a + b).drop_last() =~= a + b.drop_last());
        lemma_count_concat(a, b.drop_last(), w);
    }
}

proof fn lemma_count_push(a: Seq<TemplateEntry>, e: TemplateEntry, w: WrappedView)
    ensures
        wrapper_count(a.push(e), w) == wrapper_count(a, w) + (if is_wrapper_of(e, w) {
            1nat
        } else {
            0nat
        }),
{
    assert(a.push(e).drop_last() =~= a);
}

proof fn lemma_count_entry(s: SchemaView, v: WrappedView, w: WrappedView)
    ensures
        wrapper_count(nullable_entry(s, v), w) == (if schema_wraps(s, v) && v == w {
            1nat
        } else {
            0nat
        }),
{
    if schema_wraps(s, v) {
        let e = nullable_entry(s, v)[0];
        assert(nullable_entry(s, v) =~= Seq::<TemplateEntry>::empty().push(e));
        lemma_count_push(Seq::<TemplateEntry>::empty(), e, w);
    }
}

proof fn lemma_enum_entries_count(s: SchemaView, k: int, w: WrappedView)
    ensures
        wrapper_count(enum_entries(s, k), w) == 0,
    decreases k,
{
    if k > 0 {
        lemma_enum_entries_count(s, k - 1, w);
        let t = s.by_name[k - 1];
        if 0 <= t < s.enums.len() {
            lemma_count_push(enum_entries(s, k - 1), enum_entry(s, t), w);
        }
    }
}

/// `w` is one of the first `k` enums, by its name.
pub open spec fn names_enum_below(s: SchemaView, w: WrappedView, k: int) -> bool {
    exists|e: int| 0 <= e < k && e < s.enums.len() && w == WrappedView::Named(#[trigger] s.enums[e].name)
}

/// `w` is one of the first `k` aliases of `order`, by its name.
pub open spec fn names_alias_below(s: SchemaView, order: Seq<int>, w: WrappedView, k: int) -> bool {
    exists|j: int|
        0 <= j < k && j < order.len() && w == WrappedView::Named(s.aliases[#[trigger] order[j]].name)
}

proof fn lemma_enum_wrappers_count(s: SchemaView, k: int, w: WrappedView)
    requires
        names_distinct(s.enums, s.aliases),
        0 <= k <= s.enums.len(),
    ensures
        wrapper_count(enum_wrappers(s, k), w) == (if schema_wraps(s, w) && names_enum_below(s, w, k) {
            1nat
        } else {
            0nat
        }),
    decreases k,
{
    if k > 0 {
        lemma_enum_wrappers_count(s, k - 1, w);
        let v = WrappedView::Named(s.enums[k - 1].name);
        lemma_count_concat(enum_wrappers(s, k - 1), nullable_entry(s, v), w);
        lemma_count_entry(s, v, w);
        if v == w {
            if names_enum_below(s, w, k - 1) {
                let e = choose|e: int|
                    0 <= e < k - 1 && e < s.enums.len() && w == WrappedView::Named(
                        #[trigger] s.enums[e].name,
                    );
                assert(name_of_type(s.enums, s.aliases, e) != name_of_type(s.enums, s.aliases, k - 1));
            }
            assert(s.enums[k - 1].name == s.enums[k - 1].name);
            assert(names_enum_below(s, w, k));
        } else {
            if names_enum_below(s, w, k) {
                let e = choose|e: int|
                    0 <= e < k && e < s.enums.len() && w == WrappedView::Named(
                        #[trigger] s.enums[e].name,
                    );
                assert(e < k - 1);
                assert(names_enum_below(s, w, k - 1));
            }
        }
    }
}

proof fn lemma_alias_entries_count(s: SchemaView, order: Seq<int>, k: int, w: WrappedView)
    requires
        names_distinct(s.enums, s.aliases),
        order.no_duplicates(),
        forall|j: int| 0 <= j < order.len() ==> 0 <= #[trigger] order[j] < s.aliases.len(),
        0 <= k <= order.len(),
    ensures
        wrapper_count(alias_entries(s, order, k), w) == (if schema_wraps(s, w) && names_alias_below(
            s,
            order,
            w,
            k,
        ) {
            1nat
        } else {
            0nat
        }),
    decreases k,
{
    if k > 0 {
        lemma_alias_entries_count(s, order, k - 1, w);
        let v = WrappedView::Named(s.aliases[order[k - 1]].name);
        let head = alias_entries(s, order, k - 1);
        lemma_count_push(head, struct_entry(s, order[k - 1]), w);
        lemma_count_concat(head.push(struct_entry(s, order[k - 1])), nullable_entry(s, v), w);
        lemma_count_entry(s, v, w);
        let e = s.enums.len() as int;
        if v == w {
            if names_alias_below(s, order, w, k - 1) {
                let j = choose|j: int|
                    0 <= j < k - 1 && j < order.len() && w == WrappedView::Named(
                        s.aliases[#[trigger] order[j]].name,
                    );
                assert(order[j] != order[k - 1]);
                assert(0 <= order[j] < s.aliases.len() && 0 <= order[k - 1] < s.aliases.len());
                if order[j] < order[k - 1] {
                    assert(name_of_type(s.enums, s.aliases, e + order[j]) != name_of_type(
                        s.enums,
                        s.aliases,
                        e + order[k - 1],
                    ));
                } else {
                    assert(name_of_type(s.enums, s.aliases, e + order[k - 1]) != name_of_type(
                        s.enums,
                        s.aliases,
                        e + order[j],
                    ));
                }
            }
            assert(w == WrappedView::Named(s.aliases[order[k - 1]].name));
            assert(names_alias_below(s, order, w, k));
        } else {
            if names_alias_below(s, order, w, k) {
                let j = choose|j: int|
                    0 <= j < k && j < order.len() && w == WrappedView::Named(
                        s.aliases[#[trigger] order[j]].name,
                    );
                assert(j < k - 1);
                assert(names_alias_below(s, order, w, k - 1));
            }
        }
    }
}

proof fn lemma_primitive_wrappers_count(s: SchemaView, w: WrappedView)
    ensures
        wrapper_count(primitive_wrappers(s), w) == (if schema_wraps(s, w) && (w
            == WrappedView::Primitive(PrimitiveKind::Boolean) || w == WrappedView::Primitive(
            PrimitiveKind::Number,
        ) || w == WrappedView::Primitive(PrimitiveKind::String)) {
            1nat
        } else {
            0nat
        }),
{
    let b = WrappedView::Primitive(PrimitiveKind::Boolean);
    let n = WrappedView::Primitive(PrimitiveKind::Number);
    let t = WrappedView::Primitive(PrimitiveKind::String);
    lemma_count_entry(s, b, w);
    lemma_count_entry(s, n, w);
    lemma_count_entry(s, t, w);
    lemma_count_concat(nullable_entry(s, b), nullable_entry(s, n), w);
    lemma_count_concat(nullable_entry(s, b) + nullable_entry(s, n), nullable_entry(s, t), w);
}

proof fn lemma_wrapped_type(s: SchemaView, t: TypeView, w: WrappedView)
    requires
        is_result(t),
        type_resolved(s, t),
        wrapped_of(t) == Some(w),
    ensures
        match w {
            WrappedView::Primitive(k) => k != PrimitiveKind::Void,
            WrappedView::Named(n) => declares_alias(s.aliases, n) || declares_enum(s.enums, n),
        },
{
}

proof fn lemma_wrapped_is_declared(s: SchemaView, w: WrappedView)
    requires
        well_formed(s),
        resolved(s),
        schema_wraps(s, w),
    ensures
        match w {
            WrappedView::Primitive(k) => k != PrimitiveKind::Void,
            WrappedView::Named(n) => declares_alias(s.aliases, n) || declares_enum(s.enums, n),
        },
{
    if exists|m: int|
        0 <= m < s.methods.len() && signature_wraps((#[trigger] s.methods[m]).type_annotation, w) {
        let m = choose|m: int|
            0 <= m < s.methods.len() && signature_wraps((#[trigger] s.methods[m]).type_annotation, w);
        let t = s.methods[m].type_annotation;
        assert(signature_ok(t));
        assert(signature_resolved(s, t));
        let params = t->params;
        if exists|i: int|
            0 <= i < params.len() && wrapped_of((#[trigger] params[i]).type_annotation) == Some(w) {
            let i = choose|i: int|
                0 <= i < params.len() && wrapped_of((#[trigger] params[i]).type_annotation) == Some(
                    w,
                );
            assert(is_data(params[i].type_annotation));
            assert(type_resolved(s, params[i].type_annotation));
            lemma_wrapped_type(s, params[i].type_annotation, w);
        } else {
            lemma_wrapped_type(s, *t->return_type, w);
        }
    } else {
        let a = choose|a: int| 0 <= a < s.aliases.len() && alias_wraps(#[trigger] s.aliases[a], w);
        let alias = s.aliases[a];
        assert(alias_ok(alias));
        assert(alias_resolved(s, alias));
        let i = choose|i: int|
            0 <= i < alias.properties.len() && wrapped_of(
                (#[trigger] alias.properties[i]).type_annotation,
            ) == Some(w);
        assert(is_data(alias.properties[i].type_annotation));
        assert(type_resolved(s, alias.properties[i].type_annotation));
        lemma_wrapped_type(s, alias.properties[i].type_annotation, w);
    }
}

/// Nullable dedup: among the bridging templates of a schema against which
/// nothing stands, every type that is wrapped somewhere has one nullable
/// wrapper, however often it is wrapped, and no other type has any.
pub proof fn lemma_one_wrapper_for_each_wrapped_type(s: SchemaView, w: WrappedView)
    requires
        s.wf(),
        schema_error(s) is None,
    ensures
        wrapper_count(template_entries(s), w) == (if schema_wraps(s, w) {
            1nat
        } else {
            0nat
        }),
{
    lemma_order_exists_iff_acyclic(s.aliases);
    let order = alias_order(s.aliases).unwrap();
    let e = s.enums.len() as int;
    lemma_names_distinct(s);
    lemma_alias_order_sound(s.aliases);
    let first = enum_entries(s, s.by_name.len() as int);
    let second = enum_wrappers(s, e);
    let third = alias_entries(s, order, order.len() as int);
    let fourth = primitive_wrappers(s);
    lemma_enum_entries_count(s, s.by_name.len() as int, w);
    lemma_enum_wrappers_count(s, e, w);
    lemma_alias_entries_count(s, order, order.len() as int, w);
    lemma_primitive_wrappers_count(s, w);
    lemma_count_concat(first, second, w);
    lemma_count_concat(first + second, third, w);
    lemma_count_concat(first + second + third, fourth, w);
    let by_enum = names_enum_below(s, w, e);
    let by_alias = names_alias_below(s, order, w, order.len() as int);
    if by_enum && by_alias {
        let x = choose|x: int|
            0 <= x < e && x < s.enums.len() && w == WrappedView::Named(#[trigger] s.enums[x].name);
        let j = choose|j: int|
            0 <= j < order.len() && j < order.len() && w == WrappedView::Named(
                s.aliases[#[trigger] order[j]].name,
            );
        assert(0 <= order[j] < s.aliases.len());
        assert(name_of_type(s.enums, s.aliases, x) != name_of_type(s.enums, s.aliases, e + order[j]));
    }
    if schema_wraps(s, w) {
        lemma_wrapped_is_declared(s, w);
        match w {
            WrappedView::Primitive(k) => {},
            WrappedView::Named(n) => {
                if declares_alias(s.aliases, n) {
                    let i = choose|i: int| 0 <= i < s.aliases.len() && (#[trigger] s.aliases[i]).name == n;
                    assert(order.contains(i));
                    let j = choose|j: int| 0 <= j < order.len() && order[j] == i;
                    assert(w == WrappedView::Named(s.aliases[order[j]].name));
                    assert(by_alias);
                } else {
                    let x = choose|x: int| 0 <= x < s.enums.len() && (#[trigger] s.enums[x]).name == n;
                    assert(w == WrappedView::Named(s.enums[x].name));
                    assert(by_enum);
                }
            },
        }
    }
}

/// Where the template of the `j`-th alias of `order` stands among the
/// bridging templates.
pub open spec fn struct_place(s: SchemaView, order: Seq<int>, j: int) -> int {
    (enum_entries(s, s.by_name.len() as int).len() + enum_wrappers(
        s,
        s.enums.len() as int,
    ).len() + alias_entries(s, order, j).len()) as int
}

proof fn lemma_alias_entries_grow(s: SchemaView, order: Seq<int>, k: int, m: int)
    requires
        0 <= k <= m,
    ensures
        alias_entries(s, order, k).len() <= alias_entries(s, order, m).len(),
        k < m ==> alias_entries(s, order, k).len() < alias_entries(s, order, m).len(),
        forall|i: int|
            0 <= i < alias_entries(s, order, k).len() ==> alias_entries(s, order, m)[i]
                == alias_entries(s, order, k)[i],
    decreases m - k,
{
    if k < m {
        lemma_alias_entries_grow(s, order, k, m - 1);
    }
}

proof fn lemma_alias_entry_at(s: SchemaView, order: Seq<int>, j: int)
    requires
        0 <= j,
    ensures
        ({
            let p = alias_entries(s, order, j).len() as int;
            let all = alias_entries(s, order, j + 1);
            let w = WrappedView::Named(s.aliases[order[j]].name);
            &&& p < all.len()
            &&& all[p] == struct_entry(s, order[j])
            &&& schema_wraps(s, w) ==> p + 1 < all.len() && all[p + 1] == nullable_entry(s, w)[0]
        }),
{
}

/// Among the bridging templates of a schema against which nothing stands,
/// the template of every alias stands at its place in the order of
/// emission, directly followed by the alias's nullable wrapper where one is
/// used.
pub proof fn lemma_wrapper_follows_struct(s: SchemaView, j: int)
    requires
        s.wf(),
        schema_error(s) is None,
        0 <= j < s.aliases.len(),
    ensures
        ({
            let entries = template_entries(s);
            let order = alias_order(s.aliases).unwrap();
            let p = struct_place(s, order, j);
            let w = WrappedView::Named(s.aliases[order[j]].name);
            &&& 0 <= p < entries.len()
            &&& entries[p] == struct_entry(s, order[j])
            &&& schema_wraps(s, w) ==> p + 1 < entries.len() && entries[p + 1] == nullable_entry(
                s,
                w,
            )[0]
        }),
{
    lemma_order_exists_iff_acyclic(s.aliases);
    lemma_alias_order_sound(s.aliases);
    let order = alias_order(s.aliases).unwrap();
    lemma_alias_entry_at(s, order, j);
    lemma_alias_entries_grow(s, order, j + 1, order.len() as int);
}

/// Among the bridging templates of a schema against which nothing stands,
/// the template of an alias stands after the templates of the aliases that
/// it depends on.
pub proof fn lemma_struct_templates_follow_dependencies(s: SchemaView, a: int, b: int)
    requires
        s.wf(),
        schema_error(s) is None,
        depends(s.aliases, a, b),
    ensures
        exists|p: int, q: int|
            0 <= p < q < template_entries(s).len() && template_entries(s)[p] == struct_entry(s, b)
                && template_entries(s)[q] == struct_entry(s, a),
{
    lemma_order_exists_iff_acyclic(s.aliases);
    lemma_alias_order_sound(s.aliases);
    let order = alias_order(s.aliases).unwrap();
    lemma_dependency_stands_before(s.aliases, a, b);
    let (x, y) = choose|x: int, y: int|
        0 <= x < y < s.aliases.len() && order[x] == b && order[y] == a;
    lemma_wrapper_follows_struct(s, x);
    lemma_wrapper_follows_struct(s, y);
    lemma_alias_entries_grow(s, order, x, y);
    let p = struct_place(s, order, x);
    let q = struct_place(s, order, y);
    assert(0 <= p < q < template_entries(s).len() && template_entries(s)[p] == struct_entry(s, b)
        && template_entries(s)[q] == struct_entry(s, a));
}

/// What `t` wraps, where it is a nullable wrapper of a primitive or named
/// type.
pub fn wrapped(t: &TypeAnnotation) -> (r: Option<Wrapped>)
    ensures
        match r {
            Some(w) => wrapped_of(t@) == Some(w@),
            None => wrapped_of(t@) is None,
        },
{
    match t {
        TypeAnnotation::Nullable(inner) => {
            assert(t@ == TypeView::Nullable(Box::new(inner@)));
            match &**inner {
                TypeAnnotation::Primitive(k) => Some(Wrapped::Primitive(*k)),
                TypeAnnotation::ObjectAlias(a) => {
                    assert(inner@ == TypeView::ObjectAlias(a@));
                    Some(Wrapped::Named(a.name.clone()))
                },
                TypeAnnotation::EnumAlias(e) => {
                    assert(inner@ == TypeView::EnumAlias(e@));
                    Some(Wrapped::Named(e.name.clone()))
                },
                _ => None,
            }
        },
        _ => None,
    }
}

/// Whether `t` is a nullable wrapper of `w`.
pub fn type_wraps(t: &TypeAnnotation, w: &Wrapped) -> (b: bool)
    ensures
        b == (wrapped_of(t@) == Some(w@)),
{
    match wrapped(t) {
        Some(found) => match (&found, w) {
            (Wrapped::Primitive(a), Wrapped::Primitive(b)) => *a == *b,
            (Wrapped::Named(a), Wrapped::Named(b)) => *a == *b,
            _ => false,
        },
        None => false,
    }
}

fn method_wraps(method: &Method, w: &Wrapped) -> (b: bool)
    ensures
        b == signature_wraps(method@.type_annotation, w@),
{
    match &method.type_annotation {
        TypeAnnotation::Function { params, return_type } => {
            proof {
                lemma_function_view(method.type_annotation);
            }
            let ghost pv = method@.type_annotation->params;
            let mut i: usize = 0;
            while i < params.len()
                invariant
                    i <= params.len(),
                    method@.type_annotation is Function,
                    pv == method@.type_annotation->params,
                    pv.len() == params.len(),
                    forall|k: int|
                        0 <= k < params.len() ==> (#[trigger] pv[k]).type_annotation
                            == params[k].type_annotation@,
                    forall|k: int|
                        0 <= k < i ==> wrapped_of((#[trigger] pv[k]).type_annotation) != Some(w@),
                decreases params.len() - i,
            {
                if type_wraps(&params[i].type_annotation, w) {
                    proof {
                        let t = method@.type_annotation;
                        assert(t is Function);
                        assert(wrapped_of((t->params[i as int]).type_annotation) == Some(w@));
                        assert(signature_wraps(t, w@));
                    }
                    return true;
                }
                i += 1;
            }
            type_wraps(return_type, w)
        },
        _ => false,
    }
}

fn alias_has_wrapper(a: &ObjectAlias, w: &Wrapped) -> (b: bool)
    ensures
        b == alias_wraps(a@, w@),
{
    proof {
        lemma_alias_view(*a);
    }
    let mut i: usize = 0;
    while i < a.properties.len()
        invariant
            i <= a.properties.len(),
            a@.properties.len() == a.properties.len(),
            forall|k: int|
                0 <= k < a.properties.len() ==> (#[trigger] a@.properties[k]).type_annotation
                    == a.properties[k].type_annotation@,
            forall|k: int|
                0 <= k < i ==> wrapped_of((#[trigger] a@.properties[k]).type_annotation) != Some(
                    w@,
                ),
        decreases a.properties.len() - i,
    {
        if type_wraps(&a.properties[i].type_annotation, w) {
            assert(wrapped_of(a@.properties[i as int].type_annotation) == Some(w@));
            return true;
        }
        i += 1;
    }
    false
}

/// Whether the schema uses a nullable wrapper of `w`.
pub fn uses_wrapper(schema: &Schema, w: &Wrapped) -> (b: bool)
    ensures
        b == schema_wraps(schema@, w@),
{
    let methods = schema.methods();
    let mut m: usize = 0;
    while m < methods.len()
        invariant
            m <= methods.len(),
            method_views(methods@) == schema@.methods,
            forall|k: int|
                0 <= k < m ==> !signature_wraps((#[trigger] schema@.methods[k]).type_annotation, w@),
        decreases methods.len() - m,
    {
        assert(schema@.methods[m as int] == methods[m as int]@);
        if method_wraps(&methods[m], w) {
            return true;
        }
        m += 1;
    }
    let aliases = schema.aliases();
    let mut a: usize = 0;
    while a < aliases.len()
        invariant
            a <= aliases.len(),
            alias_views(aliases@) == schema@.aliases,
            forall|k: int|
                0 <= k < methods.len() ==> !signature_wraps(
                    (#[trigger] schema@.methods[k]).type_annotation,
                    w@,
                ),
            methods.len() == schema@.methods.len(),
            forall|k: int| 0 <= k < a ==> !alias_wraps(#[trigger] schema@.aliases[k], w@),
        decreases aliases.len() - a,
    {
        assert(schema@.aliases[a as int] == aliases[a as int]@);
        if alias_has_wrapper(&aliases[a], w) {
            return true;
        }
        a += 1;
    }
    false
}

/// The texts of a list with one more template are the texts of the list
/// with one more text.
pub proof fn lemma_texts_push(entries: Seq<TemplateEntry>, e: TemplateEntry)
    ensures
        texts_of(entries.push(e)) == texts_of(entries).push(e.text),
{
    assert(texts_of(entries.push(e)) =~= texts_of(entries).push(e.text));
}

/// Adds the nullable wrapper of `w` to `out` where the schema uses one.
fn push_wrapper(schema: &Schema, w: &Wrapped, out: &mut Vec<String>, Ghost(shown): Ghost<
    Seq<TemplateEntry>,
>)
    requires
        views(old(out)@) == texts_of(shown),
    ensures
        views(final(out)@) == texts_of(shown + nullable_entry(schema@, w@)),
{
    if uses_wrapper(schema, w) {
        let module_name = schema.module_name();
        let text = match w {
            Wrapped::Primitive(k) => {
                let word = match k {
                    PrimitiveKind::Boolean => "Boolean",
                    PrimitiveKind::Number => "Number",
                    PrimitiveKind::String => "String",
                    PrimitiveKind::Void => "Void",
                };
                render_nullable_template(module_name, word, primitive_name(*k))
            },
            Wrapped::Named(name) => {
                let mut inner = namespace(module_name);
                inner.append(name.as_str());
                render_nullable_template(module_name, name.as_str(), inner.as_str())
            },
        };
        proof {
            let e = nullable_entry(schema@, w@)[0];
            assert(text@ == e.text);
            lemma_views_push(out@, text);
            lemma_texts_push(shown, e);
            assert(shown + nullable_entry(schema@, w@) =~= shown.push(e));
        }
        out.push(text);
    } else {
        assert(shown + nullable_entry(schema@, w@) =~= shown);
    }
}

/// The bridging templates of a schema whose aliases stand in `order`.
pub(crate) fn render_templates(schema: &Schema, order: &Vec<usize>) -> (out: Vec<String>)
    requires
        forall|k: int| 0 <= k < order.len() ==> #[trigger] order[k] < schema@.aliases.len(),
    ensures
        views(out@) == texts_of(entries_in_order(schema@, index_view(order@))),
{
    let module_name = schema.module_name();
    let enums = schema.enums();
    let aliases = schema.aliases();
    let by_name = schema.types_by_name();
    let ghost s = schema@;
    let ghost ord = index_view(order@);
    let mut out: Vec<String> = Vec::new();
    assert(views(out@) =~= texts_of(Seq::empty()));
    let mut k: usize = 0;
    while k < by_name.len()
        invariant
            k <= by_name.len(),
            s == schema@,
            module_name@ == s.module_name,
            enum_views(enums@) == s.enums,
            index_view(by_name@) == s.by_name,
            views(out@) == texts_of(enum_entries(s, k as int)),
        decreases by_name.len() - k,
    {
        let t = by_name[k];
        assert(s.by_name[k as int] == t);
        if t < enums.len() {
            assert(s.enums[t as int] == enums[t as int]@);
            let text = render_enum_template(module_name, &enums[t]);
            proof {
                lemma_views_push(out@, text);
                lemma_texts_push(enum_entries(s, k as int), enum_entry(s, t as int));
            }
            out.push(text);
        }
        k += 1;
    }
    let ghost first = enum_entries(s, s.by_name.len() as int);
    let mut e: usize = 0;
    assert(first + enum_wrappers(s, 0) =~= first);
    while e < enums.len()
        invariant
            e <= enums.len(),
            s == schema@,
            enum_views(enums@) == s.enums,
            views(out@) == texts_of(first + enum_wrappers(s, e as int)),
        decreases enums.len() - e,
    {
        assert(s.enums[e as int].name == enums[e as int].name@);
        let w = Wrapped::Named(enums[e].name.clone());
        push_wrapper(schema, &w, &mut out, Ghost(first + enum_wrappers(s, e as int)));
        assert(first + enum_wrappers(s, e as int) + nullable_entry(s, w@) =~= first
            + enum_wrappers(s, e + 1));
        e += 1;
    }
    let ghost second = first + enum_wrappers(s, s.enums.len() as int);
    let mut a: usize = 0;
    assert(second + alias_entries(s, ord, 0) =~= second);
    while a < order.len()
        invariant
            a <= order.len(),
            s == schema@,
            ord == index_view(order@),
            module_name@ == s.module_name,
            alias_views(aliases@) == s.aliases,
            forall|k: int| 0 <= k < order.len() ==> #[trigger] order[k] < s.aliases.len(),
            views(out@) == texts_of(second + alias_entries(s, ord, a as int)),
        decreases order.len() - a,
    {
        let i = order[a];
        assert(ord[a as int] == i);
        assert(s.aliases[i as int] == aliases[i as int]@);
        proof {
            lemma_alias_view(aliases[i as int]);
        }
        let ghost shown = second + alias_entries(s, ord, a as int);
        let text = render_struct_template(module_name, &aliases[i]);
        proof {
            lemma_views_push(out@, text);
            lemma_texts_push(shown, struct_entry(s, i as int));
        }
        out.push(text);
        let w = Wrapped::Named(aliases[i].name.clone());
        push_wrapper(schema, &w, &mut out, Ghost(shown.push(struct_entry(s, i as int))));
        assert(shown.push(struct_entry(s, i as int)) + nullable_entry(s, w@) =~= second
            + alias_entries(s, ord, a + 1));
        a += 1;
    }
    let ghost third = second + alias_entries(s, ord, ord.len() as int);
    let boolean = Wrapped::Primitive(PrimitiveKind::Boolean);
    let number = Wrapped::Primitive(PrimitiveKind::Number);
    let string = Wrapped::Primitive(PrimitiveKind::String);
    push_wrapper(schema, &boolean, &mut out, Ghost(third));
    push_wrapper(schema, &number, &mut out, Ghost(third + nullable_entry(s, boolean@)));
    push_wrapper(
        schema,
        &string,
        &mut out,
        Ghost(third + nullable_entry(s, boolean@) + nullable_entry(s, number@)),
    );
    assert(third + nullable_entry(s, boolean@) + nullable_entry(s, number@) + nullable_entry(
        s,
        string@,
    ) =~= entries_in_order(s, ord));
    out
}

} // verus!
