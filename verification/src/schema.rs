//! The schema model: type annotations, the named types, methods and signals
//! of one module, and the index of its named types by name.

use crate::text::{compare, lemma_precedes_total, lemma_precedes_transitive, precedes, Rank};
use vstd::prelude::*;

verus! {

/// The kinds of type that have no structure of their own.
#[derive(Clone, Copy, Debug, PartialEq, Eq, Structural)]
pub enum PrimitiveKind {
    Boolean,
    Number,
    String,
    Void,
}

/// A type as the interface description gives it.
///
/// An `ObjectAlias` or `EnumAlias` that stands inside another annotation
/// refers to the definition of that name in the schema: only its name is
/// read there.
#[derive(Debug)]
pub enum TypeAnnotation {
    Primitive(PrimitiveKind),
    Nullable(Box<TypeAnnotation>),
    ObjectAlias(ObjectAlias),
    EnumAlias(EnumAlias),
    Function { params: Vec<Param>, return_type: Box<TypeAnnotation> },
}

/// A named record type.
#[derive(Debug)]
pub struct ObjectAlias {
    pub name: String,
    pub properties: Vec<Property>,
}

/// One field of a record type.
#[derive(Debug)]
pub struct Property {
    pub name: String,
    pub type_annotation: TypeAnnotation,
    pub optional: bool,
}

/// A named closed enumeration.
#[derive(Debug)]
pub struct EnumAlias {
    pub name: String,
    pub members: Vec<EnumMember>,
}

/// One member of an enumeration: its name and its literal as written.
#[derive(Debug)]
pub struct EnumMember {
    pub name: String,
    pub value: String,
}

/// One parameter of a function type.
#[derive(Debug)]
pub struct Param {
    pub name: String,
    pub type_annotation: TypeAnnotation,
}

/// A method of the module; its type is a `Function`.
#[derive(Debug)]
pub struct Method {
    pub name: String,
    pub type_annotation: TypeAnnotation,
}

/// A signal of the module; its type is a `Function`.
#[derive(Debug)]
pub struct Signal {
    pub name: String,
    pub type_annotation: TypeAnnotation,
}

/// What a `TypeAnnotation` stands for.
pub enum TypeView {
    Primitive(PrimitiveKind),
    Nullable(Box<TypeView>),
    ObjectAlias(AliasView),
    EnumAlias(EnumView),
    Function { params: Seq<ParamView>, return_type: Box<TypeView> },
}

pub struct AliasView {
    pub name: Seq<char>,
    pub properties: Seq<PropertyView>,
}

pub struct PropertyView {
    pub name: Seq<char>,
    pub type_annotation: TypeView,
    pub optional: bool,
}

pub struct EnumView {
    pub name: Seq<char>,
    pub members: Seq<MemberView>,
}

pub struct MemberView {
    pub name: Seq<char>,
    pub value: Seq<char>,
}

pub struct ParamView {
    pub name: Seq<char>,
    pub type_annotation: TypeView,
}

/// A method or a signal: a name and a type.
pub struct MethodView {
    pub name: Seq<char>,
    pub type_annotation: TypeView,
}

/// What a `Schema` stands for: the declarations in their order, and the
/// numbers of the named types in the order of their names.
///
/// The named types are numbered in one row: the enums in declaration order
/// first, then the aliases.
pub struct SchemaView {
    pub module_name: Seq<char>,
    pub aliases: Seq<AliasView>,
    pub enums: Seq<EnumView>,
    pub methods: Seq<MethodView>,
    pub signals: Seq<MethodView>,
    pub by_name: Seq<int>,
}

pub open spec fn type_view(t: TypeAnnotation) -> TypeView
    decreases t,
{
    match t {
        TypeAnnotation::Primitive(k) => TypeView::Primitive(k),
        TypeAnnotation::Nullable(inner) => TypeView::Nullable(Box::new(type_view(*inner))),
        TypeAnnotation::ObjectAlias(a) => TypeView::ObjectAlias(alias_view(a)),
        TypeAnnotation::EnumAlias(e) => TypeView::EnumAlias(enum_view(e)),
        TypeAnnotation::Function { params, return_type } => TypeView::Function {
            params: Seq::new(
                params.len() as nat,
                |i: int|
                    if 0 <= i < params.len() {
                        ParamView {
                            name: params[i].name@,
                            type_annotation: type_view(params[i].type_annotation),
                        }
                    } else {
                        arbitrary()
                    },
            ),
            return_type: Box::new(type_view(*return_type)),
        },
    }
}

pub open spec fn alias_view(a: ObjectAlias) -> AliasView
    decreases a,
{
    AliasView {
        name: a.name@,
        properties: Seq::new(
            a.properties.len() as nat,
            |i: int|
                if 0 <= i < a.properties.len() {
                    PropertyView {
                        name: a.properties[i].name@,
                        type_annotation: type_view(a.properties[i].type_annotation),
                        optional: a.properties[i].optional,
                    }
                } else {
                    arbitrary()
                },
        ),
    }
}

pub open spec fn enum_view(e: EnumAlias) -> EnumView {
    EnumView {
        name: e.name@,
        members: Seq::new(
            e.members.len() as nat,
            |i: int| MemberView { name: e.members[i].name@, value: e.members[i].value@ },
        ),
    }
}

impl View for TypeAnnotation {
    type V = TypeView;

    open spec fn view(&self) -> TypeView {
        type_view(*self)
    }
}

impl View for ObjectAlias {
    type V = AliasView;

    open spec fn view(&self) -> AliasView {
        alias_view(*self)
    }
}

impl View for EnumAlias {
    type V = EnumView;

    open spec fn view(&self) -> EnumView {
        enum_view(*self)
    }
}

impl View for EnumMember {
    type V = MemberView;

    open spec fn view(&self) -> MemberView {
        MemberView { name: self.name@, value: self.value@ }
    }
}

impl View for Property {
    type V = PropertyView;

    open spec fn view(&self) -> PropertyView {
        PropertyView {
            name: self.name@,
            type_annotation: self.type_annotation@,
            optional: self.optional,
        }
    }
}

impl View for Param {
    type V = ParamView;

    open spec fn view(&self) -> ParamView {
        ParamView { name: self.name@, type_annotation: self.type_annotation@ }
    }
}

impl View for Method {
    type V = MethodView;

    open spec fn view(&self) -> MethodView {
        MethodView { name: self.name@, type_annotation: self.type_annotation@ }
    }
}

impl View for Signal {
    type V = MethodView;

    open spec fn view(&self) -> MethodView {
        MethodView { name: self.name@, type_annotation: self.type_annotation@ }
    }
}

pub open spec fn alias_views(list: Seq<ObjectAlias>) -> Seq<AliasView> {
    Seq::new(list.len(), |i: int| list[i]@)
}

pub open spec fn enum_views(list: Seq<EnumAlias>) -> Seq<EnumView> {
    Seq::new(list.len(), |i: int| list[i]@)
}

pub open spec fn method_views(list: Seq<Method>) -> Seq<MethodView> {
    Seq::new(list.len(), |i: int| list[i]@)
}

pub open spec fn signal_views(list: Seq<Signal>) -> Seq<MethodView> {
    Seq::new(list.len(), |i: int| list[i]@)
}

pub open spec fn index_view(list: Seq<usize>) -> Seq<int> {
    Seq::new(list.len(), |i: int| list[i] as int)
}

/// The name of the named type with number `t` among `enums` and `aliases`.
pub open spec fn name_of_type(enums: Seq<EnumView>, aliases: Seq<AliasView>, t: int) -> Seq<char> {
    if t < enums.len() {
        enums[t].name
    } else {
        aliases[t - enums.len()].name
    }
}

/// No two of the named types have the same name.
pub open spec fn names_distinct(enums: Seq<EnumView>, aliases: Seq<AliasView>) -> bool {
    forall|i: int, j: int|
        0 <= i < j < enums.len() + aliases.len() ==> name_of_type(enums, aliases, i)
            != name_of_type(enums, aliases, j)
}

/// `index` holds each of the first `count` type numbers, in the order of
/// their names.
pub open spec fn sorted_by_name(
    enums: Seq<EnumView>,
    aliases: Seq<AliasView>,
    index: Seq<int>,
    count: int,
) -> bool {
    &&& index.len() == count
    &&& forall|k: int| 0 <= k < index.len() ==> 0 <= #[trigger] index[k] < count
    &&& forall|a: int, b: int|
        0 <= a < b < index.len() ==> precedes(
            name_of_type(enums, aliases, #[trigger] index[a]),
            name_of_type(enums, aliases, #[trigger] index[b]),
        )
    &&& forall|t: int| 0 <= t < count ==> #[trigger] index.contains(t)
}

impl SchemaView {
    /// How many named types the schema declares.
    pub open spec fn type_count(self) -> int {
        (self.enums.len() + self.aliases.len()) as int
    }

    /// The name of the named type with number `t`.
    pub open spec fn name_of(self, t: int) -> Seq<char> {
        name_of_type(self.enums, self.aliases, t)
    }

    /// The index by name agrees with the declarations.
    pub open spec fn wf(self) -> bool {
        sorted_by_name(self.enums, self.aliases, self.by_name, self.type_count())
    }
}

/// In a schema whose index agrees with its declarations, no two named types
/// have the same name.
pub proof fn lemma_names_distinct(s: SchemaView)
    requires
        s.wf(),
    ensures
        names_distinct(s.enums, s.aliases),
{
    assert forall|i: int, j: int| 0 <= i < j < s.enums.len() + s.aliases.len() implies name_of_type(
        s.enums,
        s.aliases,
        i,
    ) != name_of_type(s.enums, s.aliases, j) by {
        assert(s.by_name.contains(i));
        assert(s.by_name.contains(j));
        let a = choose|a: int| 0 <= a < s.by_name.len() && s.by_name[a] == i;
        let b = choose|b: int| 0 <= b < s.by_name.len() && s.by_name[b] == j;
        lemma_precedes_total(s.name_of(i), s.name_of(j));
        if a < b {
            assert(precedes(s.name_of(s.by_name[a]), s.name_of(s.by_name[b])));
        } else {
            assert(precedes(s.name_of(s.by_name[b]), s.name_of(s.by_name[a])));
        }
    }
}

proof fn lemma_index_agrees(
    enums: Seq<EnumView>,
    aliases: Seq<AliasView>,
    x: Seq<int>,
    y: Seq<int>,
    count: int,
    k: int,
)
    requires
        sorted_by_name(enums, aliases, x, count),
        sorted_by_name(enums, aliases, y, count),
        0 <= k <= count,
    ensures
        forall|j: int| 0 <= j < k ==> x[j] == y[j],
    decreases k,
{
    if k > 0 {
        lemma_index_agrees(enums, aliases, x, y, count, k - 1);
        let p = k - 1;
        let u = x[p];
        let v = y[p];
        if u != v {
            assert(x.contains(v));
            let m = choose|m: int| 0 <= m < x.len() && x[m] == v;
            assert(y.contains(u));
            let n = choose|n: int| 0 <= n < y.len() && y[n] == u;
            lemma_precedes_total(name_of_type(enums, aliases, u), name_of_type(enums, aliases, v));
            lemma_precedes_total(name_of_type(enums, aliases, v), name_of_type(enums, aliases, v));
            lemma_precedes_total(name_of_type(enums, aliases, u), name_of_type(enums, aliases, u));
            if m < p {
                assert(y[m] == x[m]);
                assert(precedes(
                    name_of_type(enums, aliases, y[m]),
                    name_of_type(enums, aliases, y[p]),
                ));
            } else {
                assert(precedes(
                    name_of_type(enums, aliases, x[p]),
                    name_of_type(enums, aliases, x[m]),
                ));
            }
            if n < p {
                assert(x[n] == y[n]);
                assert(precedes(
                    name_of_type(enums, aliases, x[n]),
                    name_of_type(enums, aliases, x[p]),
                ));
            } else {
                assert(precedes(
                    name_of_type(enums, aliases, y[p]),
                    name_of_type(enums, aliases, y[n]),
                ));
            }
        }
    }
}

/// The index by name is a function of the declarations: two schemas with
/// the same enums and aliases have the same index.
pub proof fn lemma_index_unique(a: SchemaView, b: SchemaView)
    requires
        a.wf(),
        b.wf(),
        a.enums == b.enums,
        a.aliases == b.aliases,
    ensures
        a.by_name == b.by_name,
{
    lemma_index_agrees(a.enums, a.aliases, a.by_name, b.by_name, a.type_count(), a.type_count());
    assert(a.by_name =~= b.by_name);
}

/// One module's interface description: its methods, signals, aliases and
/// enums in declaration order, with an index of the named types by name that
/// is built once and never changes.
#[derive(Debug)]
pub struct Schema {
    module_name: String,
    aliases: Vec<ObjectAlias>,
    enums: Vec<EnumAlias>,
    methods: Vec<Method>,
    signals: Vec<Signal>,
    by_name: Vec<usize>,
}

impl View for Schema {
    type V = SchemaView;

    closed spec fn view(&self) -> SchemaView {
        SchemaView {
            module_name: self.module_name@,
            aliases: alias_views(self.aliases@),
            enums: enum_views(self.enums@),
            methods: method_views(self.methods@),
            signals: signal_views(self.signals@),
            by_name: index_view(self.by_name@),
        }
    }
}

fn name_at<'a>(enums: &'a Vec<EnumAlias>, aliases: &'a Vec<ObjectAlias>, t: usize) -> (name: &'a str)
    requires
        t < enums.len() + aliases.len(),
    ensures
        name@ == name_of_type(enum_views(enums@), alias_views(aliases@), t as int),
{
    if t < enums.len() {
        enums[t].name.as_str()
    } else {
        aliases[t - enums.len()].name.as_str()
    }
}

impl Schema {
    #[verifier::type_invariant]
    spec fn inv(self) -> bool {
        self@.wf()
    }

    /// The module's name.
    pub fn module_name(&self) -> (r: &String)
        ensures
            r@ == self@.module_name,
            self@.wf(),
    {
        proof {
            use_type_invariant(self);
        }
        &self.module_name
    }

    /// The aliases in declaration order.
    pub fn aliases(&self) -> (r: &Vec<ObjectAlias>)
        ensures
            alias_views(r@) == self@.aliases,
            self@.wf(),
    {
        proof {
            use_type_invariant(self);
        }
        &self.aliases
    }

    /// The enums in declaration order.
    pub fn enums(&self) -> (r: &Vec<EnumAlias>)
        ensures
            enum_views(r@) == self@.enums,
            self@.wf(),
    {
        proof {
            use_type_invariant(self);
        }
        &self.enums
    }

    /// The methods in declaration order.
    pub fn methods(&self) -> (r: &Vec<Method>)
        ensures
            method_views(r@) == self@.methods,
            self@.wf(),
    {
        proof {
            use_type_invariant(self);
        }
        &self.methods
    }

    /// The signals in declaration order.
    pub fn signals(&self) -> (r: &Vec<Signal>)
        ensures
            signal_views(r@) == self@.signals,
            self@.wf(),
    {
        proof {
            use_type_invariant(self);
        }
        &self.signals
    }

    /// The numbers of the named types in the order of their names.
    pub fn types_by_name(&self) -> (r: &Vec<usize>)
        ensures
            index_view(r@) == self@.by_name,
            self@.wf(),
    {
        proof {
            use_type_invariant(self);
        }
        &self.by_name
    }

    /// A schema of the given declarations, or `None` where two of the named
    /// types (enums and aliases together) have the same name, or where
    /// there are more named types than can be numbered.
    pub fn new(
        module_name: String,
        aliases: Vec<ObjectAlias>,
        enums: Vec<EnumAlias>,
        methods: Vec<Method>,
        signals: Vec<Signal>,
    ) -> (res: Option<Schema>)
        ensures
            res is Some <==> names_distinct(enum_views(enums@), alias_views(aliases@))
                && enums.len() + aliases.len() <= usize::MAX,
            res matches Some(s) ==> {
                &&& s@.module_name == module_name@
                &&& s@.aliases == alias_views(aliases@)
                &&& s@.enums == enum_views(enums@)
                &&& s@.methods == method_views(methods@)
                &&& s@.signals == signal_views(signals@)
                &&& s@.wf()
            },
    {
        let ghost ev = enum_views(enums@);
        let ghost av = alias_views(aliases@);
        if aliases.len() > usize::MAX - enums.len() {
            return None;
        }
        let count = enums.len() + aliases.len();
        let mut by_name: Vec<usize> = Vec::new();
        let mut t: usize = 0;
        while t < count
            invariant
                t <= count,
                count == enums.len() + aliases.len(),
                ev == enum_views(enums@),
                av == alias_views(aliases@),
                sorted_by_name(ev, av, index_view(by_name@), t as int),
            decreases count - t,
        {
            let name = name_at(&enums, &aliases, t);
            let mut p: usize = 0;
            let mut found = false;
            while p < by_name.len() && !found
                invariant
                    p <= by_name.len(),
                    t < count,
                    count == enums.len() + aliases.len(),
                    ev == enum_views(enums@),
                    av == alias_views(aliases@),
                    name@ == name_of_type(ev, av, t as int),
                    sorted_by_name(ev, av, index_view(by_name@), t as int),
                    forall|k: int|
                        0 <= k < p - (if found { 1int } else { 0int }) ==> precedes(
                            name_of_type(ev, av, #[trigger] index_view(by_name@)[k]),
                            name@,
                        ),
                    found ==> p >= 1 && precedes(
                        name@,
                        name_of_type(ev, av, index_view(by_name@)[p - 1]),
                    ),
                decreases by_name.len() - p,
            {
                assert(index_view(by_name@)[p as int] == by_name@[p as int]);
                let other = name_at(&enums, &aliases, by_name[p]);
                match compare(other, name) {
                    Rank::Before => {},
                    Rank::Same => {
                        proof {
                            let u = index_view(by_name@)[p as int];
                            assert(name_of_type(ev, av, u) == name_of_type(ev, av, t as int));
                            assert(0 <= u < t);
                        }
                        return None;
                    },
                    Rank::After => {
                        found = true;
                    },
                }
                p += 1;
            }
            let at = if found {
                p - 1
            } else {
                p
            };
            let ghost before = index_view(by_name@);
            by_name.insert(at, t);
            proof {
                let after = index_view(by_name@);
                assert(after =~= before.insert(at as int, t as int));
                assert forall|a: int, b: int| 0 <= a < b < after.len() implies precedes(
                    name_of_type(ev, av, #[trigger] after[a]),
                    name_of_type(ev, av, #[trigger] after[b]),
                ) by {
                    if b < at {
                        assert(after[a] == before[a] && after[b] == before[b]);
                    } else if b == at {
                        assert(after[a] == before[a]);
                    } else if a == at {
                        assert(after[b] == before[b - 1]);
                        if b - 1 > at {
                            assert(precedes(
                                name_of_type(ev, av, before[at as int]),
                                name_of_type(ev, av, before[b - 1]),
                            ));
                            lemma_precedes_transitive(
                                name@,
                                name_of_type(ev, av, before[at as int]),
                                name_of_type(ev, av, before[b - 1]),
                            );
                        }
                    } else if a > at {
                        assert(after[a] == before[a - 1] && after[b] == before[b - 1]);
                    } else {
                        assert(after[a] == before[a] && after[b] == before[b - 1]);
                    }
                }
                assert forall|u: int| 0 <= u < t + 1 implies #[trigger] after.contains(u) by {
                    if u == t {
                        assert(after[at as int] == u);
                    } else {
                        assert(before.contains(u));
                        let k = choose|k: int| 0 <= k < before.len() && before[k] == u;
                        if k < at {
                            assert(after[k] == u);
                        } else {
                            assert(after[k + 1] == u);
                        }
                    }
                }
                assert forall|k: int| 0 <= k < after.len() implies 0 <= #[trigger] after[k] < t
                    + 1 by {
                    if k < at {
                        assert(after[k] == before[k]);
                    } else if k > at {
                        assert(after[k] == before[k - 1]);
                    }
                }
            }
            t += 1;
        }
        let s = Schema { module_name, aliases, enums, methods, signals, by_name };
        proof {
            lemma_names_distinct(s@);
        }
        Some(s)
    }
}

/// The views of a list of schemas.
pub open spec fn schema_views(list: Seq<Schema>) -> Seq<SchemaView> {
    Seq::new(list.len(), |i: int| list[i]@)
}

/// No two of the schemas have the same module name.
pub open spec fn modules_distinct(list: Seq<SchemaView>) -> bool {
    forall|i: int, j: int|
        0 <= i < j < list.len() ==> (#[trigger] list[i]).module_name != (#[trigger] list[j]).module_name
}

/// Whether no two of the schemas have the same module name.
pub fn has_distinct_modules(schemas: &Vec<Schema>) -> (b: bool)
    ensures
        b == modules_distinct(schema_views(schemas@)),
{
    let ghost list = schema_views(schemas@);
    let mut j: usize = 0;
    while j < schemas.len()
        invariant
            j <= schemas.len(),
            list == schema_views(schemas@),
            forall|x: int, y: int|
                0 <= x < y < j ==> (#[trigger] list[x]).module_name != (#[trigger] list[y]).module_name,
        decreases schemas.len() - j,
    {
        let name = schemas[j].module_name();
        let mut i: usize = 0;
        while i < j
            invariant
                i <= j < schemas.len(),
                list == schema_views(schemas@),
                name@ == list[j as int].module_name,
                forall|x: int| 0 <= x < i ==> (#[trigger] list[x]).module_name != name@,
            decreases j - i,
        {
            let other = schemas[i].module_name();
            assert(other@ == list[i as int].module_name);
            if *other == *name {
                return false;
            }
            i += 1;
        }
        j += 1;
    }
    true
}

/// All the schemas of one generation run, with the project they belong to.
#[derive(Debug)]
pub struct CodegenContext {
    pub name: String,
    pub root: String,
    pub schemas: Vec<Schema>,
}

impl CodegenContext {
    /// The context of a generation run over the given schemas, or `None`
    /// where two of them have the same module name.
    pub fn new(name: String, root: String, schemas: Vec<Schema>) -> (res: Option<CodegenContext>)
        ensures
            res is Some <==> modules_distinct(schema_views(schemas@)),
            res matches Some(c) ==> c.name == name && c.root == root && c.schemas == schemas,
    {
        if has_distinct_modules(&schemas) {
            Some(CodegenContext { name, root, schemas })
        } else {
            None
        }
    }
}

} // verus!
