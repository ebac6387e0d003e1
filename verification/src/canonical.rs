//! The canonical text of a collection of schemas: every name with its
//! length before it, every list with its count before it, every type with
//! the letter of its kind before it. Nothing but the declarations and their
//! order goes into it.

use crate::check::{lemma_alias_view, lemma_function_view};
use crate::hash::{hex16, lemma_hex16_injective, to_hex16};
use crate::schema::{
    alias_views, enum_views, method_views, schema_views, signal_views, AliasView, EnumAlias,
    EnumView, MemberView, Method, MethodView, ObjectAlias, ParamView, PrimitiveKind, PropertyView,
    Schema, SchemaView, Signal, TypeAnnotation, TypeView,
};
use vstd::prelude::*;
use vstd::string::{StrSliceExecFns, StringExecFns};

verus! {

/// A count, as sixteen hexadecimal digits.
pub open spec fn count_of(n: nat) -> Seq<char> {
    hex16(n as u64)
}

/// A text with its length before it.
pub open spec fn frame_of(s: Seq<char>) -> Seq<char> {
    count_of(s.len()) + s
}

/// The letter of a primitive kind.
pub open spec fn kind_letter(k: PrimitiveKind) -> Seq<char> {
    match k {
        PrimitiveKind::Boolean => "b"@,
        PrimitiveKind::Number => "n"@,
        PrimitiveKind::String => "s"@,
        PrimitiveKind::Void => "v"@,
    }
}

/// The mark of a property: `?` where it is optional, `!` where it is not.
pub open spec fn optional_mark(optional: bool) -> Seq<char> {
    if optional {
        "?"@
    } else {
        "!"@
    }
}

/// The canonical text of a type: the letter of its kind, then its parts.
pub open spec fn encode_type_of(t: TypeView) -> Seq<char>
    decreases t,
{
    match t {
        TypeView::Primitive(k) => "P"@ + kind_letter(k),
        TypeView::Nullable(inner) => "N"@ + encode_type_of(*inner),
        TypeView::ObjectAlias(a) => "O"@ + encode_alias_of(a),
        TypeView::EnumAlias(e) => "E"@ + encode_enum_of(e),
        TypeView::Function { params, return_type } => "F"@ + count_of(params.len())
            + encode_params_of(params, params.len() as int) + encode_type_of(*return_type),
    }
}

/// The canonical text of the first `k` parameters: of each its name and
/// its type.
pub open spec fn encode_params_of(params: Seq<ParamView>, k: int) -> Seq<char>
    decreases params, k,
{
    if k <= 0 || k > params.len() {
        Seq::empty()
    } else {
        encode_params_of(params, k - 1) + frame_of(params[k - 1].name) + encode_type_of(
            params[k - 1].type_annotation,
        )
    }
}

/// The canonical text of an alias: its name, the count of its properties
/// and the properties.
pub open spec fn encode_alias_of(a: AliasView) -> Seq<char>
    decreases a,
{
    frame_of(a.name) + count_of(a.properties.len()) + encode_props_of(
        a.properties,
        a.properties.len() as int,
    )
}

/// The canonical text of the first `k` properties: of each its name, its
/// type and its mark.
pub open spec fn encode_props_of(props: Seq<PropertyView>, k: int) -> Seq<char>
    decreases props, k,
{
    if k <= 0 || k > props.len() {
        Seq::empty()
    } else {
        encode_props_of(props, k - 1) + frame_of(props[k - 1].name) + encode_type_of(
            props[k - 1].type_annotation,
        ) + optional_mark(props[k - 1].optional)
    }
}

/// The canonical text of the first `k` members: of each its name and its
/// literal.
pub open spec fn encode_members_of(members: Seq<MemberView>, k: int) -> Seq<char>
    decreases k,
{
    if k <= 0 || k > members.len() {
        Seq::empty()
    } else {
        encode_members_of(members, k - 1) + frame_of(members[k - 1].name) + frame_of(
            members[k - 1].value,
        )
    }
}

/// The canonical text of an enum: its name, the count of its members and
/// the members.
pub open spec fn encode_enum_of(e: EnumView) -> Seq<char> {
    frame_of(e.name) + count_of(e.members.len()) + encode_members_of(
        e.members,
        e.members.len() as int,
    )
}

/// The canonical text of the first `k` aliases.
pub open spec fn encode_aliases_of(aliases: Seq<AliasView>, k: int) -> Seq<char>
    decreases k,
{
    if k <= 0 || k > aliases.len() {
        Seq::empty()
    } else {
        encode_aliases_of(aliases, k - 1) + encode_alias_of(aliases[k - 1])
    }
}

/// The canonical text of the first `k` enums.
pub open spec fn encode_enums_of(enums: Seq<EnumView>, k: int) -> Seq<char>
    decreases k,
{
    if k <= 0 || k > enums.len() {
        Seq::empty()
    } else {
        encode_enums_of(enums, k - 1) + encode_enum_of(enums[k - 1])
    }
}

/// The canonical text of the first `k` methods or signals: of each its name
/// and its type.
pub open spec fn encode_methods_of(methods: Seq<MethodView>, k: int) -> Seq<char>
    decreases k,
{
    if k <= 0 || k > methods.len() {
        Seq::empty()
    } else {
        encode_methods_of(methods, k - 1) + frame_of(methods[k - 1].name) + encode_type_of(
            methods[k - 1].type_annotation,
        )
    }
}

/// The canonical text of a schema: its name, then its aliases, enums,
/// methods and signals, each list with its count, in declaration order.
pub open spec fn encode_schema_of(s: SchemaView) -> Seq<char> {
    frame_of(s.module_name) + count_of(s.aliases.len()) + encode_aliases_of(
        s.aliases,
        s.aliases.len() as int,
    ) + count_of(s.enums.len()) + encode_enums_of(s.enums, s.enums.len() as int) + count_of(
        s.methods.len(),
    ) + encode_methods_of(s.methods, s.methods.len() as int) + count_of(s.signals.len())
        + encode_methods_of(s.signals, s.signals.len() as int)
}

/// The canonical text of the first `k` schemas.
pub open spec fn encode_schemas_upto(list: Seq<SchemaView>, k: int) -> Seq<char>
    decreases k,
{
    if k <= 0 || k > list.len() {
        Seq::empty()
    } else {
        encode_schemas_upto(list, k - 1) + encode_schema_of(list[k - 1])
    }
}

/// The canonical text of a list of schemas: their count, then each of
/// them in order.
pub open spec fn encode_schemas_of(list: Seq<SchemaView>) -> Seq<char> {
    count_of(list.len()) + encode_schemas_upto(list, list.len() as int)
}

/// A length or count that the sixteen digits can hold.
pub open spec fn fits(n: nat) -> bool {
    n <= u64::MAX
}

/// Every name and every list inside the type has a length that the
/// sixteen digits can hold.
pub open spec fn sized_type(t: TypeView) -> bool
    decreases t,
{
    match t {
        TypeView::Primitive(_) => true,
        TypeView::Nullable(inner) => sized_type(*inner),
        TypeView::ObjectAlias(a) => sized_alias(a),
        TypeView::EnumAlias(e) => sized_enum(e),
        TypeView::Function { params, return_type } => {
            &&& fits(params.len())
            &&& sized_params(params, params.len() as int)
            &&& sized_type(*return_type)
        },
    }
}

/// The first `k` parameters have lengths that the sixteen digits can hold.
pub open spec fn sized_params(params: Seq<ParamView>, k: int) -> bool
    decreases params, k,
{
    if k <= 0 || k > params.len() {
        true
    } else {
        &&& sized_params(params, k - 1)
        &&& fits(params[k - 1].name.len())
        &&& sized_type(params[k - 1].type_annotation)
    }
}

/// Every name and every list inside the alias has a length that the
/// sixteen digits can hold.
pub open spec fn sized_alias(a: AliasView) -> bool
    decreases a,
{
    &&& fits(a.name.len())
    &&& fits(a.properties.len())
    &&& sized_props(a.properties, a.properties.len() as int)
}

/// The first `k` properties have lengths that the sixteen digits can hold.
pub open spec fn sized_props(props: Seq<PropertyView>, k: int) -> bool
    decreases props, k,
{
    if k <= 0 || k > props.len() {
        true
    } else {
        &&& sized_props(props, k - 1)
        &&& fits(props[k - 1].name.len())
        &&& sized_type(props[k - 1].type_annotation)
    }
}

/// Every name and the list of members of the enum have lengths that the
/// sixteen digits can hold.
pub open spec fn sized_enum(e: EnumView) -> bool {
    &&& fits(e.name.len())
    &&& fits(e.members.len())
    &&& forall|i: int|
        0 <= i < e.members.len() ==> fits((#[trigger] e.members[i]).name.len()) && fits(
            e.members[i].value.len(),
        )
}

/// The name and the type of the method have lengths that the sixteen digits
/// can hold.
pub open spec fn sized_method(m: MethodView) -> bool {
    fits(m.name.len()) && sized_type(m.type_annotation)
}

/// Everything in the schema has a length that the sixteen digits can hold.
pub open spec fn sized_schema(s: SchemaView) -> bool {
    &&& fits(s.module_name.len())
    &&& fits(s.aliases.len())
    &&& fits(s.enums.len())
    &&& fits(s.methods.len())
    &&& fits(s.signals.len())
    &&& forall|i: int| 0 <= i < s.aliases.len() ==> sized_alias(#[trigger] s.aliases[i])
    &&& forall|i: int| 0 <= i < s.enums.len() ==> sized_enum(#[trigger] s.enums[i])
    &&& forall|i: int| 0 <= i < s.methods.len() ==> sized_method(#[trigger] s.methods[i])
    &&& forall|i: int| 0 <= i < s.signals.len() ==> sized_method(#[trigger] s.signals[i])
}

/// Two schemas declare the same: the same name and the same aliases,
/// enums, methods and signals in the same order.
pub open spec fn same_declarations(a: SchemaView, b: SchemaView) -> bool {
    &&& a.module_name == b.module_name
    &&& a.aliases == b.aliases
    &&& a.enums == b.enums
    &&& a.methods == b.methods
    &&& a.signals == b.signals
}

proof fn lemma_split(a: Seq<char>, r1: Seq<char>, b: Seq<char>, r2: Seq<char>)
    requires
        a.len() == b.len(),
        a + r1 == b + r2,
    ensures
        a == b,
        r1 == r2,
{
    let n = a.len() as int;
    assert((a + r1).subrange(0, n) =~= a);
    assert((b + r2).subrange(0, n) =~= b);
    assert((a + r1).subrange(n, (a + r1).len() as int) =~= r1);
    assert((b + r2).subrange(n, (b + r2).len() as int) =~= r2);
}

proof fn lemma_split_count(n: nat, r1: Seq<char>, m: nat, r2: Seq<char>)
    requires
        fits(n),
        fits(m),
        count_of(n) + r1 == count_of(m) + r2,
    ensures
        n == m,
        r1 == r2,
{
    lemma_split(count_of(n), r1, count_of(m), r2);
    lemma_hex16_injective(n as u64, m as u64);
}

proof fn lemma_split_frame(s: Seq<char>, r1: Seq<char>, t: Seq<char>, r2: Seq<char>)
    requires
        fits(s.len()),
        fits(t.len()),
        frame_of(s) + r1 == frame_of(t) + r2,
    ensures
        s == t,
        r1 == r2,
{
    assert(frame_of(s) + r1 =~= count_of(s.len()) + (s + r1));
    assert(frame_of(t) + r2 =~= count_of(t.len()) + (t + r2));
    lemma_split_count(s.len(), s + r1, t.len(), t + r2);
    lemma_split(s, r1, t, r2);
}

/// The letter that the canonical text of a type starts with.
pub open spec fn tag_of(t: TypeView) -> char {
    match t {
        TypeView::Primitive(_) => 'P',
        TypeView::Nullable(_) => 'N',
        TypeView::ObjectAlias(_) => 'O',
        TypeView::EnumAlias(_) => 'E',
        TypeView::Function { .. } => 'F',
    }
}

/// What follows the first letter in the canonical text of a type.
pub open spec fn body_of(t: TypeView) -> Seq<char> {
    match t {
        TypeView::Primitive(k) => kind_letter(k),
        TypeView::Nullable(inner) => encode_type_of(*inner),
        TypeView::ObjectAlias(a) => encode_alias_of(a),
        TypeView::EnumAlias(e) => encode_enum_of(e),
        TypeView::Function { params, return_type } => count_of(params.len()) + encode_params_of(
            params,
            params.len() as int,
        ) + encode_type_of(*return_type),
    }
}

proof fn lemma_letters()
    ensures
        "P"@ == seq!['P'],
        "N"@ == seq!['N'],
        "O"@ == seq!['O'],
        "E"@ == seq!['E'],
        "F"@ == seq!['F'],
        "b"@ == seq!['b'],
        "n"@ == seq!['n'],
        "s"@ == seq!['s'],
        "v"@ == seq!['v'],
        "?"@ == seq!['?'],
        "!"@ == seq!['!'],
{
    reveal_strlit("P");
    reveal_strlit("N");
    reveal_strlit("O");
    reveal_strlit("E");
    reveal_strlit("F");
    reveal_strlit("b");
    reveal_strlit("n");
    reveal_strlit("s");
    reveal_strlit("v");
    reveal_strlit("?");
    reveal_strlit("!");
    assert("P"@ =~= seq!['P']);
    assert("N"@ =~= seq!['N']);
    assert("O"@ =~= seq!['O']);
    assert("E"@ =~= seq!['E']);
    assert("F"@ =~= seq!['F']);
    assert("b"@ =~= seq!['b']);
    assert("n"@ =~= seq!['n']);
    assert("s"@ =~= seq!['s']);
    assert("v"@ =~= seq!['v']);
    assert("?"@ =~= seq!['?']);
    assert("!"@ =~= seq!['!']);
}

proof fn lemma_type_shape(t: TypeView)
    ensures
        encode_type_of(t) == seq![tag_of(t)] + body_of(t),
{
    lemma_letters();
    match t {
        TypeView::Function { params, return_type } => {
            assert(encode_type_of(t) =~= seq![tag_of(t)] + body_of(t));
        },
        _ => {},
    }
}

proof fn lemma_split_type(x: TypeView, r1: Seq<char>, y: TypeView, r2: Seq<char>)
    requires
        sized_type(x),
        sized_type(y),
        encode_type_of(x) + r1 == encode_type_of(y) + r2,
    ensures
        x == y,
        r1 == r2,
    decreases x,
{
    lemma_type_shape(x);
    lemma_type_shape(y);
    lemma_letters();
    let bx = body_of(x);
    let by = body_of(y);
    assert(encode_type_of(x) + r1 =~= seq![tag_of(x)] + (bx + r1));
    assert(encode_type_of(y) + r2 =~= seq![tag_of(y)] + (by + r2));
    lemma_split(seq![tag_of(x)], bx + r1, seq![tag_of(y)], by + r2);
    assert(seq![tag_of(x)][0] == seq![tag_of(y)][0]);
    assert(tag_of(x) == tag_of(y));
    match x {
        TypeView::Primitive(k) => {
            let k2 = y->Primitive_0;
            lemma_split(kind_letter(k), r1, kind_letter(k2), r2);
            assert(kind_letter(k)[0] == kind_letter(k2)[0]);
        },
        TypeView::Nullable(inner) => {
            let inner2 = y->Nullable_0;
            lemma_split_type(*inner, r1, *inner2, r2);
        },
        TypeView::ObjectAlias(a) => {
            lemma_split_alias(a, r1, y->ObjectAlias_0, r2);
        },
        TypeView::EnumAlias(e) => {
            lemma_split_enum(e, r1, y->EnumAlias_0, r2);
        },
        TypeView::Function { params, return_type } => {
            let params2 = y->Function_params;
            let ret2 = y->Function_return_type;
            let n = params.len() as int;
            let m = params2.len() as int;
            assert(bx + r1 =~= count_of(params.len()) + (encode_params_of(params, n) + (
            encode_type_of(*return_type) + r1)));
            assert(by + r2 =~= count_of(params2.len()) + (encode_params_of(params2, m) + (
            encode_type_of(*ret2) + r2)));
            lemma_split_count(
                params.len(),
                encode_params_of(params, n) + (encode_type_of(*return_type) + r1),
                params2.len(),
                encode_params_of(params2, m) + (encode_type_of(*ret2) + r2),
            );
            lemma_split_params(
                params,
                encode_type_of(*return_type) + r1,
                params2,
                encode_type_of(*ret2) + r2,
                n,
            );
            lemma_split_type(*return_type, r1, *ret2, r2);
            assert(params =~= params2);
        },
    }
}

proof fn lemma_split_params(
    ps: Seq<ParamView>,
    r1: Seq<char>,
    qs: Seq<ParamView>,
    r2: Seq<char>,
    k: int,
)
    requires
        0 <= k <= ps.len(),
        k <= qs.len(),
        sized_params(ps, k),
        sized_params(qs, k),
        encode_params_of(ps, k) + r1 == encode_params_of(qs, k) + r2,
    ensures
        forall|i: int| 0 <= i < k ==> ps[i] == qs[i],
        r1 == r2,
    decreases ps, k,
{
    if k > 0 {
        let p = ps[k - 1];
        let q = qs[k - 1];
        let item1 = frame_of(p.name) + (encode_type_of(p.type_annotation) + r1);
        let item2 = frame_of(q.name) + (encode_type_of(q.type_annotation) + r2);
        assert(encode_params_of(ps, k) + r1 =~= encode_params_of(ps, k - 1) + item1);
        assert(encode_params_of(qs, k) + r2 =~= encode_params_of(qs, k - 1) + item2);
        lemma_split_params(ps, item1, qs, item2, k - 1);
        lemma_split_frame(
            p.name,
            encode_type_of(p.type_annotation) + r1,
            q.name,
            encode_type_of(q.type_annotation) + r2,
        );
        lemma_split_type(p.type_annotation, r1, q.type_annotation, r2);
    }
}

proof fn lemma_split_alias(a: AliasView, r1: Seq<char>, b: AliasView, r2: Seq<char>)
    requires
        sized_alias(a),
        sized_alias(b),
        encode_alias_of(a) + r1 == encode_alias_of(b) + r2,
    ensures
        a == b,
        r1 == r2,
    decreases a,
{
    let n = a.properties.len() as int;
    let m = b.properties.len() as int;
    let rest1 = count_of(a.properties.len()) + (encode_props_of(a.properties, n) + r1);
    let rest2 = count_of(b.properties.len()) + (encode_props_of(b.properties, m) + r2);
    assert(encode_alias_of(a) + r1 =~= frame_of(a.name) + rest1);
    assert(encode_alias_of(b) + r2 =~= frame_of(b.name) + rest2);
    lemma_split_frame(a.name, rest1, b.name, rest2);
    lemma_split_count(
        a.properties.len(),
        encode_props_of(a.properties, n) + r1,
        b.properties.len(),
        encode_props_of(b.properties, m) + r2,
    );
    lemma_split_props(a.properties, r1, b.properties, r2, n);
    assert(a.properties =~= b.properties);
}

proof fn lemma_split_props(
    ps: Seq<PropertyView>,
    r1: Seq<char>,
    qs: Seq<PropertyView>,
    r2: Seq<char>,
    k: int,
)
    requires
        0 <= k <= ps.len(),
        k <= qs.len(),
        sized_props(ps, k),
        sized_props(qs, k),
        encode_props_of(ps, k) + r1 == encode_props_of(qs, k) + r2,
    ensures
        forall|i: int| 0 <= i < k ==> ps[i] == qs[i],
        r1 == r2,
    decreases ps, k,
{
    if k > 0 {
        lemma_letters();
        let p = ps[k - 1];
        let q = qs[k - 1];
        let tail1 = optional_mark(p.optional) + r1;
        let tail2 = optional_mark(q.optional) + r2;
        let item1 = frame_of(p.name) + (encode_type_of(p.type_annotation) + tail1);
        let item2 = frame_of(q.name) + (encode_type_of(q.type_annotation) + tail2);
        assert(encode_props_of(ps, k) + r1 =~= encode_props_of(ps, k - 1) + item1);
        assert(encode_props_of(qs, k) + r2 =~= encode_props_of(qs, k - 1) + item2);
        lemma_split_props(ps, item1, qs, item2, k - 1);
        lemma_split_frame(
            p.name,
            encode_type_of(p.type_annotation) + tail1,
            q.name,
            encode_type_of(q.type_annotation) + tail2,
        );
        lemma_split_type(p.type_annotation, tail1, q.type_annotation, tail2);
        lemma_split(optional_mark(p.optional), r1, optional_mark(q.optional), r2);
        assert(optional_mark(p.optional)[0] == optional_mark(q.optional)[0]);
    }
}

proof fn lemma_split_members(
    ps: Seq<MemberView>,
    r1: Seq<char>,
    qs: Seq<MemberView>,
    r2: Seq<char>,
    k: int,
)
    requires
        0 <= k <= ps.len(),
        k <= qs.len(),
        forall|i: int|
            0 <= i < k ==> fits((#[trigger] ps[i]).name.len()) && fits(ps[i].value.len()),
        forall|i: int|
            0 <= i < k ==> fits((#[trigger] qs[i]).name.len()) && fits(qs[i].value.len()),
        encode_members_of(ps, k) + r1 == encode_members_of(qs, k) + r2,
    ensures
        forall|i: int| 0 <= i < k ==> ps[i] == qs[i],
        r1 == r2,
    decreases k,
{
    if k > 0 {
        let p = ps[k - 1];
        let q = qs[k - 1];
        let item1 = frame_of(p.name) + (frame_of(p.value) + r1);
        let item2 = frame_of(q.name) + (frame_of(q.value) + r2);
        assert(encode_members_of(ps, k) + r1 =~= encode_members_of(ps, k - 1) + item1);
        assert(encode_members_of(qs, k) + r2 =~= encode_members_of(qs, k - 1) + item2);
        lemma_split_members(ps, item1, qs, item2, k - 1);
        lemma_split_frame(p.name, frame_of(p.value) + r1, q.name, frame_of(q.value) + r2);
        lemma_split_frame(p.value, r1, q.value, r2);
    }
}

proof fn lemma_split_enum(a: EnumView, r1: Seq<char>, b: EnumView, r2: Seq<char>)
    requires
        sized_enum(a),
        sized_enum(b),
        encode_enum_of(a) + r1 == encode_enum_of(b) + r2,
    ensures
        a == b,
        r1 == r2,
{
    let n = a.members.len() as int;
    let m = b.members.len() as int;
    let rest1 = count_of(a.members.len()) + (encode_members_of(a.members, n) + r1);
    let rest2 = count_of(b.members.len()) + (encode_members_of(b.members, m) + r2);
    assert(encode_enum_of(a) + r1 =~= frame_of(a.name) + rest1);
    assert(encode_enum_of(b) + r2 =~= frame_of(b.name) + rest2);
    lemma_split_frame(a.name, rest1, b.name, rest2);
    lemma_split_count(
        a.members.len(),
        encode_members_of(a.members, n) + r1,
        b.members.len(),
        encode_members_of(b.members, m) + r2,
    );
    lemma_split_members(a.members, r1, b.members, r2, n);
    assert(a.members =~= b.members);
}

proof fn lemma_split_aliases(
    ps: Seq<AliasView>,
    r1: Seq<char>,
    qs: Seq<AliasView>,
    r2: Seq<char>,
    k: int,
)
    requires
        0 <= k <= ps.len(),
        k <= qs.len(),
        forall|i: int| 0 <= i < k ==> sized_alias(#[trigger] ps[i]),
        forall|i: int| 0 <= i < k ==> sized_alias(#[trigger] qs[i]),
        encode_aliases_of(ps, k) + r1 == encode_aliases_of(qs, k) + r2,
    ensures
        forall|i: int| 0 <= i < k ==> ps[i] == qs[i],
        r1 == r2,
    decreases k,
{
    if k > 0 {
        let item1 = encode_alias_of(ps[k - 1]) + r1;
        let item2 = encode_alias_of(qs[k - 1]) + r2;
        assert(encode_aliases_of(ps, k) + r1 =~= encode_aliases_of(ps, k - 1) + item1);
        assert(encode_aliases_of(qs, k) + r2 =~= encode_aliases_of(qs, k - 1) + item2);
        lemma_split_aliases(ps, item1, qs, item2, k - 1);
        lemma_split_alias(ps[k - 1], r1, qs[k - 1], r2);
    }
}

proof fn lemma_split_enums(
    ps: Seq<EnumView>,
    r1: Seq<char>,
    qs: Seq<EnumView>,
    r2: Seq<char>,
    k: int,
)
    requires
        0 <= k <= ps.len(),
        k <= qs.len(),
        forall|i: int| 0 <= i < k ==> sized_enum(#[trigger] ps[i]),
        forall|i: int| 0 <= i < k ==> sized_enum(#[trigger] qs[i]),
        encode_enums_of(ps, k) + r1 == encode_enums_of(qs, k) + r2,
    ensures
        forall|i: int| 0 <= i < k ==> ps[i] == qs[i],
        r1 == r2,
    decreases k,
{
    if k > 0 {
        let item1 = encode_enum_of(ps[k - 1]) + r1;
        let item2 = encode_enum_of(qs[k - 1]) + r2;
        assert(encode_enums_of(ps, k) + r1 =~= encode_enums_of(ps, k - 1) + item1);
        assert(encode_enums_of(qs, k) + r2 =~= encode_enums_of(qs, k - 1) + item2);
        lemma_split_enums(ps, item1, qs, item2, k - 1);
        lemma_split_enum(ps[k - 1], r1, qs[k - 1], r2);
    }
}

proof fn lemma_split_methods(
    ps: Seq<MethodView>,
    r1: Seq<char>,
    qs: Seq<MethodView>,
    r2: Seq<char>,
    k: int,
)
    requires
        0 <= k <= ps.len(),
        k <= qs.len(),
        forall|i: int| 0 <= i < k ==> sized_method(#[trigger] ps[i]),
        forall|i: int| 0 <= i < k ==> sized_method(#[trigger] qs[i]),
        encode_methods_of(ps, k) + r1 == encode_methods_of(qs, k) + r2,
    ensures
        forall|i: int| 0 <= i < k ==> ps[i] == qs[i],
        r1 == r2,
    decreases k,
{
    if k > 0 {
        let p = ps[k - 1];
        let q = qs[k - 1];
        let item1 = frame_of(p.name) + (encode_type_of(p.type_annotation) + r1);
        let item2 = frame_of(q.name) + (encode_type_of(q.type_annotation) + r2);
        assert(encode_methods_of(ps, k) + r1 =~= encode_methods_of(ps, k - 1) + item1);
        assert(encode_methods_of(qs, k) + r2 =~= encode_methods_of(qs, k - 1) + item2);
        lemma_split_methods(ps, item1, qs, item2, k - 1);
        lemma_split_frame(
            p.name,
            encode_type_of(p.type_annotation) + r1,
            q.name,
            encode_type_of(q.type_annotation) + r2,
        );
        lemma_split_type(p.type_annotation, r1, q.type_annotation, r2);
    }
}

proof fn lemma_assoc(a: Seq<char>, b: Seq<char>, c: Seq<char>)
    ensures
        (a + b) + c == a + (b + c),
{
    assert((a + b) + c =~= a + (b + c));
}

/// What follows the name in the canonical text of a schema, before `rest`.
spec fn after_name(s: SchemaView, rest: Seq<char>) -> Seq<char> {
    count_of(s.aliases.len()) + (encode_aliases_of(s.aliases, s.aliases.len() as int) + after_aliases(
        s,
        rest,
    ))
}

/// What follows the aliases in the canonical text of a schema, before
/// `rest`.
spec fn after_aliases(s: SchemaView, rest: Seq<char>) -> Seq<char> {
    count_of(s.enums.len()) + (encode_enums_of(s.enums, s.enums.len() as int) + after_enums(s, rest))
}

/// What follows the enums in the canonical text of a schema, before `rest`.
spec fn after_enums(s: SchemaView, rest: Seq<char>) -> Seq<char> {
    count_of(s.methods.len()) + (encode_methods_of(s.methods, s.methods.len() as int)
        + after_methods(s, rest))
}

/// What follows the methods in the canonical text of a schema, before
/// `rest`.
spec fn after_methods(s: SchemaView, rest: Seq<char>) -> Seq<char> {
    count_of(s.signals.len()) + (encode_methods_of(s.signals, s.signals.len() as int) + rest)
}

proof fn lemma_schema_shape(s: SchemaView, rest: Seq<char>)
    ensures
        encode_schema_of(s) + rest == frame_of(s.module_name) + after_name(s, rest),
{
    let t0 = frame_of(s.module_name);
    let t1 = count_of(s.aliases.len());
    let t2 = encode_aliases_of(s.aliases, s.aliases.len() as int);
    let t3 = count_of(s.enums.len());
    let t4 = encode_enums_of(s.enums, s.enums.len() as int);
    let t5 = count_of(s.methods.len());
    let t6 = encode_methods_of(s.methods, s.methods.len() as int);
    let t7 = count_of(s.signals.len());
    let t8 = encode_methods_of(s.signals, s.signals.len() as int);
    let x8 = t8 + rest;
    let x7 = t7 + x8;
    let x6 = t6 + x7;
    let x5 = t5 + x6;
    let x4 = t4 + x5;
    let x3 = t3 + x4;
    let x2 = t2 + x3;
    let x1 = t1 + x2;
    lemma_assoc(t0 + t1 + t2 + t3 + t4 + t5 + t6 + t7, t8, rest);
    lemma_assoc(t0 + t1 + t2 + t3 + t4 + t5 + t6, t7, x8);
    lemma_assoc(t0 + t1 + t2 + t3 + t4 + t5, t6, x7);
    lemma_assoc(t0 + t1 + t2 + t3 + t4, t5, x6);
    lemma_assoc(t0 + t1 + t2 + t3, t4, x5);
    lemma_assoc(t0 + t1 + t2, t3, x4);
    lemma_assoc(t0 + t1, t2, x3);
    lemma_assoc(t0, t1, x2);
    assert(x1 == after_name(s, rest));
}

proof fn lemma_split_signals(a: SchemaView, r1: Seq<char>, b: SchemaView, r2: Seq<char>)
    requires
        sized_schema(a),
        sized_schema(b),
        after_methods(a, r1) == after_methods(b, r2),
    ensures
        a.signals == b.signals,
        r1 == r2,
{
    lemma_split_count(
        a.signals.len(),
        encode_methods_of(a.signals, a.signals.len() as int) + r1,
        b.signals.len(),
        encode_methods_of(b.signals, b.signals.len() as int) + r2,
    );
    lemma_split_methods(a.signals, r1, b.signals, r2, a.signals.len() as int);
    assert(a.signals =~= b.signals);
}

proof fn lemma_split_method_list(a: SchemaView, r1: Seq<char>, b: SchemaView, r2: Seq<char>)
    requires
        sized_schema(a),
        sized_schema(b),
        after_enums(a, r1) == after_enums(b, r2),
    ensures
        a.methods == b.methods,
        after_methods(a, r1) == after_methods(b, r2),
{
    lemma_split_count(
        a.methods.len(),
        encode_methods_of(a.methods, a.methods.len() as int) + after_methods(a, r1),
        b.methods.len(),
        encode_methods_of(b.methods, b.methods.len() as int) + after_methods(b, r2),
    );
    lemma_split_methods(
        a.methods,
        after_methods(a, r1),
        b.methods,
        after_methods(b, r2),
        a.methods.len() as int,
    );
    assert(a.methods =~= b.methods);
}

proof fn lemma_split_enum_list(a: SchemaView, r1: Seq<char>, b: SchemaView, r2: Seq<char>)
    requires
        sized_schema(a),
        sized_schema(b),
        after_aliases(a, r1) == after_aliases(b, r2),
    ensures
        a.enums == b.enums,
        after_enums(a, r1) == after_enums(b, r2),
{
    lemma_split_count(
        a.enums.len(),
        encode_enums_of(a.enums, a.enums.len() as int) + after_enums(a, r1),
        b.enums.len(),
        encode_enums_of(b.enums, b.enums.len() as int) + after_enums(b, r2),
    );
    lemma_split_enums(a.enums, after_enums(a, r1), b.enums, after_enums(b, r2), a.enums.len() as int);
    assert(a.enums =~= b.enums);
}

proof fn lemma_split_alias_list(a: SchemaView, r1: Seq<char>, b: SchemaView, r2: Seq<char>)
    requires
        sized_schema(a),
        sized_schema(b),
        after_name(a, r1) == after_name(b, r2),
    ensures
        a.aliases == b.aliases,
        after_aliases(a, r1) == after_aliases(b, r2),
{
    lemma_split_count(
        a.aliases.len(),
        encode_aliases_of(a.aliases, a.aliases.len() as int) + after_aliases(a, r1),
        b.aliases.len(),
        encode_aliases_of(b.aliases, b.aliases.len() as int) + after_aliases(b, r2),
    );
    lemma_split_aliases(
        a.aliases,
        after_aliases(a, r1),
        b.aliases,
        after_aliases(b, r2),
        a.aliases.len() as int,
    );
    assert(a.aliases =~= b.aliases);
}

proof fn lemma_split_schema(a: SchemaView, r1: Seq<char>, b: SchemaView, r2: Seq<char>)
    requires
        sized_schema(a),
        sized_schema(b),
        encode_schema_of(a) + r1 == encode_schema_of(b) + r2,
    ensures
        same_declarations(a, b),
        r1 == r2,
{
    lemma_schema_shape(a, r1);
    lemma_schema_shape(b, r2);
    lemma_split_frame(a.module_name, after_name(a, r1), b.module_name, after_name(b, r2));
    lemma_split_alias_list(a, r1, b, r2);
    lemma_split_enum_list(a, r1, b, r2);
    lemma_split_method_list(a, r1, b, r2);
    lemma_split_signals(a, r1, b, r2);
}

proof fn lemma_split_schemas(
    ps: Seq<SchemaView>,
    r1: Seq<char>,
    qs: Seq<SchemaView>,
    r2: Seq<char>,
    k: int,
)
    requires
        0 <= k <= ps.len(),
        k <= qs.len(),
        forall|i: int| 0 <= i < k ==> sized_schema(#[trigger] ps[i]),
        forall|i: int| 0 <= i < k ==> sized_schema(#[trigger] qs[i]),
        encode_schemas_upto(ps, k) + r1 == encode_schemas_upto(qs, k) + r2,
    ensures
        forall|i: int| 0 <= i < k ==> same_declarations(#[trigger] ps[i], qs[i]),
        r1 == r2,
    decreases k,
{
    if k > 0 {
        let item1 = encode_schema_of(ps[k - 1]) + r1;
        let item2 = encode_schema_of(qs[k - 1]) + r2;
        assert(encode_schemas_upto(ps, k) + r1 =~= encode_schemas_upto(ps, k - 1) + item1);
        assert(encode_schemas_upto(qs, k) + r2 =~= encode_schemas_upto(qs, k - 1) + item2);
        lemma_split_schemas(ps, item1, qs, item2, k - 1);
        lemma_split_schema(ps[k - 1], r1, qs[k - 1], r2);
    }
}

/// Everything in the list of schemas, and the list itself, has a length
/// that the sixteen digits can hold.
pub open spec fn sized_schemas(list: Seq<SchemaView>) -> bool {
    &&& fits(list.len())
    &&& forall|i: int| 0 <= i < list.len() ==> sized_schema(#[trigger] list[i])
}

/// Two lists of schemas are equally long and declare the same, one by one.
pub open spec fn same_schemas(a: Seq<SchemaView>, b: Seq<SchemaView>) -> bool {
    &&& a.len() == b.len()
    &&& forall|i: int| 0 <= i < a.len() ==> same_declarations(#[trigger] a[i], b[i])
}

/// The canonical text tells schemas apart: lists of schemas with the same
/// canonical text are equally long and declare the same, one by one.
pub proof fn lemma_canonical_text_tells_apart(a: Seq<SchemaView>, b: Seq<SchemaView>)
    requires
        sized_schemas(a),
        sized_schemas(b),
        encode_schemas_of(a) == encode_schemas_of(b),
    ensures
        same_schemas(a, b),
{
    let empty = Seq::<char>::empty();
    let n = a.len() as int;
    let m = b.len() as int;
    assert(encode_schemas_of(a) =~= count_of(a.len()) + (encode_schemas_upto(a, n) + empty));
    assert(encode_schemas_of(b) =~= count_of(b.len()) + (encode_schemas_upto(b, m) + empty));
    lemma_split_count(
        a.len(),
        encode_schemas_upto(a, n) + empty,
        b.len(),
        encode_schemas_upto(b, m) + empty,
    );
    lemma_split_schemas(a, empty, b, empty, n);
}

fn count(n: usize) -> (out: String)
    ensures
        out@ == count_of(n as nat),
{
    to_hex16(n as u64)
}

/// The canonical text of a type.
pub fn encode_type(t: &TypeAnnotation) -> (out: String)
    ensures
        out@ == encode_type_of(t@),
    decreases t,
{
    match t {
        TypeAnnotation::Primitive(k) => {
            let mut out = String::from_str("P");
            match k {
                PrimitiveKind::Boolean => out.append("b"),
                PrimitiveKind::Number => out.append("n"),
                PrimitiveKind::String => out.append("s"),
                PrimitiveKind::Void => out.append("v"),
            }
            out
        },
        TypeAnnotation::Nullable(inner) => {
            assert(t@ == TypeView::Nullable(Box::new(inner@)));
            let mut out = String::from_str("N");
            out.append(encode_type(inner).as_str());
            out
        },
        TypeAnnotation::ObjectAlias(a) => {
            assert(t@ == TypeView::ObjectAlias(a@));
            let mut out = String::from_str("O");
            out.append(encode_alias(a).as_str());
            out
        },
        TypeAnnotation::EnumAlias(e) => {
            assert(t@ == TypeView::EnumAlias(e@));
            let mut out = String::from_str("E");
            out.append(encode_enum(e).as_str());
            out
        },
        TypeAnnotation::Function { params, return_type } => {
            proof {
                lemma_function_view(*t);
            }
            let ghost pv = t@->params;
            let mut out = String::from_str("F");
            out.append(count(params.len()).as_str());
            let ghost head = out@;
            assert(out@ =~= head + encode_params_of(pv, 0));
            let mut i: usize = 0;
            while i < params.len()
                invariant
                    i <= params.len(),
                    t is Function,
                    params == &t->params,
                    pv.len() == params.len(),
                    forall|k: int|
                        0 <= k < params.len() ==> (#[trigger] pv[k]).type_annotation
                            == params[k].type_annotation@ && pv[k].name == params[k].name@,
                    out@ == head + encode_params_of(pv, i as int),
                decreases params.len() - i,
            {
                let name = encode_name(params[i].name.as_str());
                let text = encode_type(&params[i].type_annotation);
                proof {
                    assert(pv[i as int].name == params[i as int].name@);
                    assert(pv[i as int].type_annotation == params[i as int].type_annotation@);
                    assert(head + encode_params_of(pv, i as int) + name@ + text@ =~= head
                        + encode_params_of(pv, i + 1));
                }
                out.append(name.as_str());
                out.append(text.as_str());
                i += 1;
            }
            out.append(encode_type(return_type).as_str());
            out
        },
    }
}

fn encode_name(s: &str) -> (out: String)
    ensures
        out@ == frame_of(s@),
{
    let mut out = count(s.unicode_len());
    out.append(s);
    out
}

/// The canonical text of an alias.
pub fn encode_alias(a: &ObjectAlias) -> (out: String)
    ensures
        out@ == encode_alias_of(a@),
    decreases a,
{
    proof {
        lemma_alias_view(*a);
    }
    let ghost av = a@;
    let mut out = encode_name(a.name.as_str());
    out.append(count(a.properties.len()).as_str());
    let ghost head = out@;
    assert(out@ =~= head + encode_props_of(av.properties, 0));
    let mut i: usize = 0;
    while i < a.properties.len()
        invariant
            i <= a.properties.len(),
            av == a@,
            av.properties.len() == a.properties.len(),
            forall|k: int|
                0 <= k < a.properties.len() ==> (#[trigger] av.properties[k]).type_annotation
                    == a.properties[k].type_annotation@ && av.properties[k].name
                    == a.properties[k].name@,
            out@ == head + encode_props_of(av.properties, i as int),
        decreases a.properties.len() - i,
    {
        let p = &a.properties[i];
        let name = encode_name(p.name.as_str());
        let text = encode_type(&p.type_annotation);
        let mark = if p.optional {
            "?"
        } else {
            "!"
        };
        proof {
            assert(av.properties[i as int].name == p.name@);
            assert(av.properties[i as int].type_annotation == p.type_annotation@);
            assert(av.properties[i as int].optional == p.optional);
            assert(head + encode_props_of(av.properties, i as int) + name@ + text@ + mark@ =~= head
                + encode_props_of(av.properties, i + 1));
        }
        out.append(name.as_str());
        out.append(text.as_str());
        out.append(mark);
        i += 1;
    }
    out
}

/// The canonical text of an enum.
pub fn encode_enum(e: &EnumAlias) -> (out: String)
    ensures
        out@ == encode_enum_of(e@),
{
    let ghost ev = e@;
    let mut out = encode_name(e.name.as_str());
    out.append(count(e.members.len()).as_str());
    let ghost head = out@;
    assert(out@ =~= head + encode_members_of(ev.members, 0));
    let mut i: usize = 0;
    while i < e.members.len()
        invariant
            i <= e.members.len(),
            ev == e@,
            out@ == head + encode_members_of(ev.members, i as int),
        decreases e.members.len() - i,
    {
        let name = encode_name(e.members[i].name.as_str());
        let value = encode_name(e.members[i].value.as_str());
        proof {
            assert(head + encode_members_of(ev.members, i as int) + name@ + value@ =~= head
                + encode_members_of(ev.members, i + 1));
        }
        out.append(name.as_str());
        out.append(value.as_str());
        i += 1;
    }
    out
}

fn encode_aliases(aliases: &Vec<ObjectAlias>) -> (out: String)
    ensures
        out@ == encode_aliases_of(alias_views(aliases@), aliases.len() as int),
{
    let ghost list = alias_views(aliases@);
    let mut out = String::new();
    assert(out@ =~= encode_aliases_of(list, 0));
    let mut i: usize = 0;
    while i < aliases.len()
        invariant
            i <= aliases.len(),
            list == alias_views(aliases@),
            out@ == encode_aliases_of(list, i as int),
        decreases aliases.len() - i,
    {
        let text = encode_alias(&aliases[i]);
        assert(list[i as int] == aliases[i as int]@);
        out.append(text.as_str());
        i += 1;
    }
    out
}

fn encode_enums(enums: &Vec<EnumAlias>) -> (out: String)
    ensures
        out@ == encode_enums_of(enum_views(enums@), enums.len() as int),
{
    let ghost list = enum_views(enums@);
    let mut out = String::new();
    assert(out@ =~= encode_enums_of(list, 0));
    let mut i: usize = 0;
    while i < enums.len()
        invariant
            i <= enums.len(),
            list == enum_views(enums@),
            out@ == encode_enums_of(list, i as int),
        decreases enums.len() - i,
    {
        let text = encode_enum(&enums[i]);
        assert(list[i as int] == enums[i as int]@);
        out.append(text.as_str());
        i += 1;
    }
    out
}

fn encode_methods(methods: &Vec<Method>) -> (out: String)
    ensures
        out@ == encode_methods_of(method_views(methods@), methods.len() as int),
{
    let ghost list = method_views(methods@);
    let mut out = String::new();
    assert(out@ =~= encode_methods_of(list, 0));
    let mut i: usize = 0;
    while i < methods.len()
        invariant
            i <= methods.len(),
            list == method_views(methods@),
            out@ == encode_methods_of(list, i as int),
        decreases methods.len() - i,
    {
        let name = encode_name(methods[i].name.as_str());
        let text = encode_type(&methods[i].type_annotation);
        assert(list[i as int] == methods[i as int]@);
        out.append(name.as_str());
        out.append(text.as_str());
        i += 1;
    }
    out
}

fn encode_signals(signals: &Vec<Signal>) -> (out: String)
    ensures
        out@ == encode_methods_of(signal_views(signals@), signals.len() as int),
{
    let ghost list = signal_views(signals@);
    let mut out = String::new();
    assert(out@ =~= encode_methods_of(list, 0));
    let mut i: usize = 0;
    while i < signals.len()
        invariant
            i <= signals.len(),
            list == signal_views(signals@),
            out@ == encode_methods_of(list, i as int),
        decreases signals.len() - i,
    {
        let name = encode_name(signals[i].name.as_str());
        let text = encode_type(&signals[i].type_annotation);
        assert(list[i as int] == signals[i as int]@);
        out.append(name.as_str());
        out.append(text.as_str());
        i += 1;
    }
    out
}

/// The canonical text of a schema.
pub fn encode_schema(schema: &Schema) -> (out: String)
    ensures
        out@ == encode_schema_of(schema@),
{
    let aliases = schema.aliases();
    let enums = schema.enums();
    let methods = schema.methods();
    let signals = schema.signals();
    let mut out = encode_name(schema.module_name().as_str());
    out.append(count(aliases.len()).as_str());
    out.append(encode_aliases(aliases).as_str());
    out.append(count(enums.len()).as_str());
    out.append(encode_enums(enums).as_str());
    out.append(count(methods.len()).as_str());
    out.append(encode_methods(methods).as_str());
    out.append(count(signals.len()).as_str());
    out.append(encode_signals(signals).as_str());
    out
}

/// The canonical text of a list of schemas.
pub fn encode_schemas(schemas: &Vec<Schema>) -> (out: String)
    ensures
        out@ == encode_schemas_of(schema_views(schemas@)),
{
    let ghost list = schema_views(schemas@);
    let mut out = count(schemas.len());
    let ghost head = out@;
    assert(out@ =~= head + encode_schemas_upto(list, 0));
    let mut i: usize = 0;
    while i < schemas.len()
        invariant
            i <= schemas.len(),
            list == schema_views(schemas@),
            out@ == head + encode_schemas_upto(list, i as int),
        decreases schemas.len() - i,
    {
        let text = encode_schema(&schemas[i]);
        proof {
            assert(list[i as int] == schemas[i as int]@);
            assert(head + encode_schemas_upto(list, i as int) + text@ =~= head
                + encode_schemas_upto(list, i + 1));
        }
        out.append(text.as_str());
        i += 1;
    }
    out
}

} // verus!
