//! The order in which named types are emitted: every type after the types
//! that its definition refers to.

use crate::error::GenerationError;
use crate::schema::{
    alias_views, enum_views, index_view, lemma_names_distinct, name_of_type, AliasView, Schema,
    ObjectAlias, SchemaView, TypeAnnotation, TypeView,
};
use crate::text::views;
use vstd::prelude::*;
use vstd::set_lib::{lemma_int_range, lemma_subset_equality, set_int_range};

verus! {

/// The type at the core of `t`: what `t` wraps where it is nullable, else `t`.
pub open spec fn core_of(t: TypeView) -> TypeView {
    match t {
        TypeView::Nullable(inner) => *inner,
        _ => t,
    }
}

/// `t` refers to the alias `name`, directly or through a nullable wrapper.
pub open spec fn refers_to_alias(t: TypeView, name: Seq<char>) -> bool {
    core_of(t) matches TypeView::ObjectAlias(a) && a.name == name
}

/// `t` refers to the enum `name`, directly or through a nullable wrapper.
pub open spec fn refers_to_enum(t: TypeView, name: Seq<char>) -> bool {
    core_of(t) matches TypeView::EnumAlias(e) && e.name == name
}

/// The definition of `a` refers to the alias `name`.
pub open spec fn alias_refers_to(a: AliasView, name: Seq<char>) -> bool {
    exists|p: int|
        0 <= p < a.properties.len() && refers_to_alias(
            (#[trigger] a.properties[p]).type_annotation,
            name,
        )
}

/// Alias `i` of the schema depends on alias `j`.
pub open spec fn depends(aliases: Seq<AliasView>, i: int, j: int) -> bool {
    &&& 0 <= i < aliases.len()
    &&& 0 <= j < aliases.len()
    &&& alias_refers_to(aliases[i], aliases[j].name)
}

/// Alias `i` can be emitted after `done`: it is not in `done`, and every
/// alias it depends on is.
pub open spec fn ready(aliases: Seq<AliasView>, done: Seq<int>, i: int) -> bool {
    &&& !done.contains(i)
    &&& forall|j: int| #[trigger] depends(aliases, i, j) ==> done.contains(j)
}

/// The first alias from `from` on, in declaration order, that can be emitted
/// after `done`.
pub open spec fn first_ready(aliases: Seq<AliasView>, done: Seq<int>, from: int) -> Option<int>
    decreases aliases.len() - from,
{
    if from < 0 || from >= aliases.len() {
        None
    } else if ready(aliases, done, from) {
        Some(from)
    } else {
        first_ready(aliases, done, from + 1)
    }
}

/// `done`, followed by the aliases that are left, each time the first in
/// declaration order that can be emitted; `None` where at some point none
/// can.
pub open spec fn extend_order(aliases: Seq<AliasView>, done: Seq<int>) -> Option<Seq<int>>
    decreases aliases.len() - done.len(),
{
    if done.len() >= aliases.len() {
        Some(done)
    } else {
        match first_ready(aliases, done, 0) {
            None => None,
            Some(i) => extend_order(aliases, done.push(i)),
        }
    }
}

/// The aliases, by number, in the order of emission.
pub open spec fn alias_order(aliases: Seq<AliasView>) -> Option<Seq<int>> {
    extend_order(aliases, Seq::empty())
}

/// The names of the enums in declaration order, then those of the aliases in
/// the given order.
pub open spec fn names_in_order(s: SchemaView, order: Seq<int>) -> Seq<Seq<char>> {
    Seq::new(s.enums.len(), |k: int| s.enums[k].name) + Seq::new(
        order.len(),
        |k: int| s.aliases[order[k]].name,
    )
}

/// The names of all named types of the schema, each after the types that
/// its definition refers to; `None` where aliases refer to each other in a
/// circle.
pub open spec fn deps_order(s: SchemaView) -> Option<Seq<Seq<char>>> {
    match alias_order(s.aliases) {
        None => None,
        Some(order) => Some(names_in_order(s, order)),
    }
}

/// `order` holds aliases by number, none of them twice, each after every
/// alias that it depends on.
pub open spec fn dependencies_first(aliases: Seq<AliasView>, order: Seq<int>) -> bool {
    &&& forall|k: int| 0 <= k < order.len() ==> 0 <= #[trigger] order[k] < aliases.len()
    &&& order.no_duplicates()
    &&& forall|k: int, j: int|
        0 <= k < order.len() && #[trigger] depends(aliases, order[k], j) ==> exists|m: int|
            0 <= m < k && order[m] == j
}

/// The definition of `a` refers to the enum `name`.
pub open spec fn alias_refers_to_enum(a: AliasView, name: Seq<char>) -> bool {
    exists|p: int|
        0 <= p < a.properties.len() && refers_to_enum(
            (#[trigger] a.properties[p]).type_annotation,
            name,
        )
}

proof fn lemma_first_ready(aliases: Seq<AliasView>, done: Seq<int>, from: int)
    requires
        0 <= from,
    ensures
        first_ready(aliases, done, from) matches Some(i) ==> from <= i < aliases.len() && ready(
            aliases,
            done,
            i,
        ),
    decreases aliases.len() - from,
{
    if from < aliases.len() && !ready(aliases, done, from) {
        lemma_first_ready(aliases, done, from + 1);
    }
}

proof fn lemma_push_ready(aliases: Seq<AliasView>, done: Seq<int>, i: int)
    requires
        dependencies_first(aliases, done),
        0 <= i < aliases.len(),
        ready(aliases, done, i),
    ensures
        dependencies_first(aliases, done.push(i)),
{
    let next = done.push(i);
    assert forall|k: int, j: int|
        0 <= k < next.len() && #[trigger] depends(aliases, next[k], j) implies exists|m: int|
        0 <= m < k && next[m] == j by {
        if k < done.len() {
            assert(depends(aliases, done[k], j));
            let m = choose|m: int| 0 <= m < k && done[m] == j;
            assert(next[m] == j);
        } else {
            assert(done.contains(j));
            let m = choose|m: int| 0 <= m < done.len() && done[m] == j;
            assert(next[m] == j);
        }
    }
    assert(next.no_duplicates()) by {
        assert forall|x: int, y: int|
            0 <= x < next.len() && 0 <= y < next.len() && x != y implies next[x] != next[y] by {
            if x == done.len() {
                assert(done[y] == next[y]);
            } else if y == done.len() {
                assert(done[x] == next[x]);
            }
        }
    }
}

proof fn lemma_extend_order(aliases: Seq<AliasView>, done: Seq<int>)
    requires
        dependencies_first(aliases, done),
        done.len() <= aliases.len(),
        extend_order(aliases, done) is Some,
    ensures
        dependencies_first(aliases, extend_order(aliases, done).unwrap()),
        extend_order(aliases, done).unwrap().len() == aliases.len(),
    decreases aliases.len() - done.len(),
{
    if done.len() < aliases.len() {
        lemma_first_ready(aliases, done, 0);
        let i = first_ready(aliases, done, 0).unwrap();
        lemma_push_ready(aliases, done, i);
        lemma_extend_order(aliases, done.push(i));
    }
}

/// Where the aliases can be ordered, the order holds every alias once, each
/// after every alias that it depends on.
pub proof fn lemma_alias_order_sound(aliases: Seq<AliasView>)
    requires
        alias_order(aliases) is Some,
    ensures
        dependencies_first(aliases, alias_order(aliases).unwrap()),
        alias_order(aliases).unwrap().len() == aliases.len(),
        forall|i: int| 0 <= i < aliases.len() ==> alias_order(aliases).unwrap().contains(i),
{
    let empty = Seq::<int>::empty();
    lemma_extend_order(aliases, empty);
    let order = alias_order(aliases).unwrap();
    let all = set_int_range(0, aliases.len() as int);
    lemma_int_range(0, aliases.len() as int);
    order.unique_seq_to_set();
    assert(order.to_set().subset_of(all)) by {
        assert forall|x: int| order.to_set().contains(x) implies all.contains(x) by {
            let k = choose|k: int| 0 <= k < order.len() && order[k] == x;
            assert(0 <= order[k] < aliases.len());
        }
    }
    vstd::set_lib::lemma_len_subset(order.to_set(), all);
    lemma_subset_equality(order.to_set(), all);
    assert forall|i: int| 0 <= i < aliases.len() implies order.contains(i) by {
        assert(all.contains(i));
        assert(order.to_set().contains(i));
    }
}

/// Dependency ordering among aliases: where alias `a` depends on alias `b`,
/// `b` stands before `a` in the order.
pub proof fn lemma_dependency_stands_before(aliases: Seq<AliasView>, a: int, b: int)
    requires
        alias_order(aliases) is Some,
        depends(aliases, a, b),
    ensures
        exists|x: int, y: int|
            0 <= x < y < aliases.len() && alias_order(aliases).unwrap()[x] == b && alias_order(
                aliases,
            ).unwrap()[y] == a,
{
    lemma_alias_order_sound(aliases);
    let order = alias_order(aliases).unwrap();
    assert(order.contains(a));
    let y = choose|y: int| 0 <= y < order.len() && order[y] == a;
    assert(depends(aliases, order[y], b));
    let x = choose|x: int| 0 <= x < y && order[x] == b;
    assert(0 <= x < y < aliases.len() && order[x] == b && order[y] == a);
}

proof fn lemma_path_descends(aliases: Seq<AliasView>, path: Seq<int>, k: int)
    requires
        alias_order(aliases) is Some,
        1 <= k < path.len(),
        forall|i: int| 0 <= i < path.len() - 1 ==> depends(aliases, path[i], #[trigger] path[i + 1]),
    ensures
        exists|x: int, y: int|
            0 <= x < y < aliases.len() && alias_order(aliases).unwrap()[x] == path[k]
                && alias_order(aliases).unwrap()[y] == path[0],
    decreases k,
{
    let order = alias_order(aliases).unwrap();
    lemma_alias_order_sound(aliases);
    assert(depends(aliases, path[k - 1], path[k - 1 + 1]));
    lemma_dependency_stands_before(aliases, path[k - 1], path[k]);
    let (x, y) = choose|x: int, y: int|
        0 <= x < y < aliases.len() && order[x] == path[k] && order[y] == path[k - 1];
    if k > 1 {
        lemma_path_descends(aliases, path, k - 1);
        let (x2, y2) = choose|x2: int, y2: int|
            0 <= x2 < y2 < aliases.len() && order[x2] == path[k - 1] && order[y2] == path[0];
        assert(x2 == y);
        assert(0 <= x < y2 < aliases.len() && order[x] == path[k] && order[y2] == path[0]);
    }
}

/// Cycle detection: where a walk along dependencies leads from an alias
/// back to itself, the aliases have no order.
pub proof fn lemma_cycle_has_no_order(aliases: Seq<AliasView>, path: Seq<int>)
    requires
        path.len() >= 2,
        path.last() == path.first(),
        forall|i: int| 0 <= i < path.len() - 1 ==> depends(aliases, path[i], #[trigger] path[i + 1]),
    ensures
        alias_order(aliases) is None,
{
    if alias_order(aliases) is Some {
        let order = alias_order(aliases).unwrap();
        lemma_alias_order_sound(aliases);
        lemma_path_descends(aliases, path, path.len() - 1);
        let (x, y) = choose|x: int, y: int|
            0 <= x < y < aliases.len() && order[x] == path[path.len() - 1] && order[y] == path[0];
        assert(order[x] == order[y]);
    }
}

/// The first `k` numbers in their order.
pub open spec fn first_numbers(k: int) -> Seq<int> {
    Seq::new(k as nat, |i: int| i)
}

proof fn lemma_first_ready_is_next(aliases: Seq<AliasView>, k: int, from: int)
    requires
        forall|i: int, j: int| !depends(aliases, i, j),
        0 <= from <= k < aliases.len(),
    ensures
        first_ready(aliases, first_numbers(k), from) == Some(k),
    decreases k - from,
{
    let done = first_numbers(k);
    if from < k {
        assert(done[from] == from);
        assert(done.contains(from));
        lemma_first_ready_is_next(aliases, k, from + 1);
    } else {
        assert(!done.contains(k)) by {
            if done.contains(k) {
                let w = choose|w: int| 0 <= w < done.len() && done[w] == k;
                assert(done[w] == w);
            }
        }
    }
}

proof fn lemma_extend_in_declaration_order(aliases: Seq<AliasView>, k: int)
    requires
        forall|i: int, j: int| !depends(aliases, i, j),
        0 <= k <= aliases.len(),
    ensures
        extend_order(aliases, first_numbers(k)) == Some(first_numbers(aliases.len() as int)),
    decreases aliases.len() - k,
{
    if k < aliases.len() {
        lemma_first_ready_is_next(aliases, k, 0);
        assert(first_numbers(k).push(k) =~= first_numbers(k + 1));
        lemma_extend_in_declaration_order(aliases, k + 1);
    }
}

/// Aliases none of which refers to another keep their declaration order.
pub proof fn lemma_independent_aliases_keep_order(aliases: Seq<AliasView>)
    requires
        forall|i: int, j: int| !depends(aliases, i, j),
    ensures
        alias_order(aliases) == Some(first_numbers(aliases.len() as int)),
{
    assert(first_numbers(0) =~= Seq::<int>::empty());
    lemma_extend_in_declaration_order(aliases, 0);
}

/// A walk along dependencies that leads from an alias back to itself.
pub open spec fn is_cycle(aliases: Seq<AliasView>, path: Seq<int>) -> bool {
    &&& path.len() >= 2
    &&& path.last() == path.first()
    &&& forall|i: int| 0 <= i < path.len() - 1 ==> depends(aliases, path[i], #[trigger] path[i + 1])
}

/// The aliases refer to each other in a circle.
pub open spec fn has_cycle(aliases: Seq<AliasView>) -> bool {
    exists|path: Seq<int>| is_cycle(aliases, path)
}

/// Every alias outside `done` depends on an alias outside `done`.
spec fn stuck(aliases: Seq<AliasView>, done: Seq<int>) -> bool {
    forall|i: int|
        0 <= i < aliases.len() && !done.contains(i) ==> exists|j: int|
            #[trigger] depends(aliases, i, j) && !done.contains(j)
}

/// The alias that stands `k` steps along dependencies from `start`, each
/// step leading to an alias outside `done`.
spec fn walk(aliases: Seq<AliasView>, done: Seq<int>, start: int, k: nat) -> int
    decreases k,
{
    if k == 0 {
        start
    } else {
        let from = walk(aliases, done, start, (k - 1) as nat);
        choose|j: int| #[trigger] depends(aliases, from, j) && !done.contains(j)
    }
}

proof fn lemma_walk(aliases: Seq<AliasView>, done: Seq<int>, start: int, k: nat)
    requires
        stuck(aliases, done),
        0 <= start < aliases.len(),
        !done.contains(start),
    ensures
        0 <= walk(aliases, done, start, k) < aliases.len(),
        !done.contains(walk(aliases, done, start, k)),
        k > 0 ==> depends(
            aliases,
            walk(aliases, done, start, (k - 1) as nat),
            walk(aliases, done, start, k),
        ),
    decreases k,
{
    if k > 0 {
        lemma_walk(aliases, done, start, (k - 1) as nat);
    }
}

proof fn lemma_pigeonhole(s: Seq<int>, n: int)
    requires
        0 <= n < s.len(),
        forall|k: int| 0 <= k < s.len() ==> 0 <= #[trigger] s[k] < n,
    ensures
        exists|a: int, b: int| 0 <= a < b < s.len() && s[a] == s[b],
{
    if !exists|a: int, b: int| 0 <= a < b < s.len() && s[a] == s[b] {
        assert(s.no_duplicates()) by {
            assert forall|x: int, y: int|
                0 <= x < s.len() && 0 <= y < s.len() && x != y implies s[x] != s[y] by {
                if x < y {
                    assert(!(0 <= x < y < s.len() && s[x] == s[y]));
                } else {
                    assert(!(0 <= y < x < s.len() && s[y] == s[x]));
                }
            }
        }
        s.unique_seq_to_set();
        let all = set_int_range(0, n);
        lemma_int_range(0, n);
        assert(s.to_set().subset_of(all)) by {
            assert forall|x: int| s.to_set().contains(x) implies all.contains(x) by {
                let k = choose|k: int| 0 <= k < s.len() && s[k] == x;
                assert(0 <= s[k] < n);
            }
        }
        vstd::set_lib::lemma_len_subset(s.to_set(), all);
    }
}

proof fn lemma_some_alias_left(aliases: Seq<AliasView>, done: Seq<int>)
    requires
        dependencies_first(aliases, done),
        done.len() < aliases.len(),
    ensures
        exists|i: int| 0 <= i < aliases.len() && !done.contains(i),
{
    if !exists|i: int| 0 <= i < aliases.len() && !done.contains(i) {
        let all = set_int_range(0, aliases.len() as int);
        lemma_int_range(0, aliases.len() as int);
        done.unique_seq_to_set();
        assert(all.subset_of(done.to_set())) by {
            assert forall|x: int| all.contains(x) implies done.to_set().contains(x) by {
                assert(done.contains(x));
            }
        }
        vstd::set_lib::lemma_len_subset(all, done.to_set());
    }
}

proof fn lemma_none_ready(aliases: Seq<AliasView>, done: Seq<int>, from: int)
    requires
        0 <= from,
        first_ready(aliases, done, from) is None,
    ensures
        forall|i: int| from <= i < aliases.len() ==> !ready(aliases, done, i),
    decreases aliases.len() - from,
{
    if from < aliases.len() {
        lemma_none_ready(aliases, done, from + 1);
    }
}

proof fn lemma_stuck_has_cycle(aliases: Seq<AliasView>, done: Seq<int>, start: int)
    requires
        stuck(aliases, done),
        0 <= start < aliases.len(),
        !done.contains(start),
    ensures
        has_cycle(aliases),
{
    let n = aliases.len() as int;
    let steps = Seq::new((n + 1) as nat, |k: int| walk(aliases, done, start, k as nat));
    assert forall|k: int| 0 <= k < steps.len() implies 0 <= #[trigger] steps[k] < n by {
        lemma_walk(aliases, done, start, k as nat);
    }
    lemma_pigeonhole(steps, n);
    let (a, b) = choose|a: int, b: int| 0 <= a < b < steps.len() && steps[a] == steps[b];
    let path = steps.subrange(a, b + 1);
    assert forall|i: int| 0 <= i < path.len() - 1 implies depends(
        aliases,
        path[i],
        #[trigger] path[i + 1],
    ) by {
        lemma_walk(aliases, done, start, (a + i + 1) as nat);
        assert(path[i] == steps[a + i]);
        assert(path[i + 1] == steps[a + i + 1]);
    }
    assert(path.first() == steps[a]);
    assert(path.last() == steps[b]);
    assert(is_cycle(aliases, path));
}

proof fn lemma_extend_none_has_cycle(aliases: Seq<AliasView>, done: Seq<int>)
    requires
        dependencies_first(aliases, done),
        done.len() <= aliases.len(),
        extend_order(aliases, done) is None,
    ensures
        has_cycle(aliases),
    decreases aliases.len() - done.len(),
{
    match first_ready(aliases, done, 0) {
        None => {
            lemma_none_ready(aliases, done, 0);
            assert(stuck(aliases, done)) by {
                assert forall|i: int| 0 <= i < aliases.len() && !done.contains(i) implies exists|
                    j: int,
                |
                    #[trigger] depends(aliases, i, j) && !done.contains(j) by {
                    assert(!ready(aliases, done, i));
                }
            }
            lemma_some_alias_left(aliases, done);
            let start = choose|i: int| 0 <= i < aliases.len() && !done.contains(i);
            lemma_stuck_has_cycle(aliases, done, start);
        },
        Some(i) => {
            lemma_first_ready(aliases, done, 0);
            lemma_push_ready(aliases, done, i);
            lemma_extend_none_has_cycle(aliases, done.push(i));
        },
    }
}

/// The aliases can be ordered exactly where they do not refer to each other
/// in a circle.
pub proof fn lemma_order_exists_iff_acyclic(aliases: Seq<AliasView>)
    ensures
        alias_order(aliases) is Some <==> !has_cycle(aliases),
{
    if alias_order(aliases) is None {
        lemma_extend_none_has_cycle(aliases, Seq::empty());
    }
    if has_cycle(aliases) {
        let path = choose|path: Seq<int>| is_cycle(aliases, path);
        lemma_cycle_has_no_order(aliases, path);
    }
}

/// Cycle detection for two aliases: where each refers to the other, the
/// schema has no order of emission.
pub proof fn lemma_mutual_reference_has_no_order(s: SchemaView, a: int, b: int)
    requires
        depends(s.aliases, a, b),
        depends(s.aliases, b, a),
    ensures
        deps_order(s) is None,
{
    let path = seq![a, b, a];
    assert forall|i: int| 0 <= i < path.len() - 1 implies depends(
        s.aliases,
        path[i],
        #[trigger] path[i + 1],
    ) by {
        if i == 0 {
            assert(path[0] == a && path[1] == b);
        } else {
            assert(path[1] == b && path[2] == a);
        }
    }
    lemma_cycle_has_no_order(s.aliases, path);
}

/// The named types of a schema without a circle have an order of emission,
/// and it holds the name of every named type once.
pub proof fn lemma_order_covers_every_type(s: SchemaView)
    requires
        s.wf(),
        !has_cycle(s.aliases),
    ensures
        deps_order(s) is Some,
        deps_order(s).unwrap().len() == s.type_count(),
        deps_order(s).unwrap().no_duplicates(),
        forall|t: int| 0 <= t < s.type_count() ==> deps_order(s).unwrap().contains(s.name_of(t)),
{
    lemma_order_exists_iff_acyclic(s.aliases);
    let order = alias_order(s.aliases).unwrap();
    let names = deps_order(s).unwrap();
    let e = s.enums.len() as int;
    lemma_alias_order_sound(s.aliases);
    lemma_names_distinct(s);
    assert forall|x: int, y: int| 0 <= x < y < names.len() implies names[x] != names[y] by {
        let tx = if x < e {
            x
        } else {
            e + order[x - e]
        };
        let ty = if y < e {
            y
        } else {
            e + order[y - e]
        };
        assert(names[x] == s.name_of(tx));
        assert(names[y] == s.name_of(ty));
        if x >= e {
            assert(0 <= order[x - e] < s.aliases.len());
            assert(0 <= order[y - e] < s.aliases.len());
            assert(order[x - e] != order[y - e]);
        } else if y >= e {
            assert(0 <= order[y - e] < s.aliases.len());
        }
        assert(tx != ty);
        if tx < ty {
            assert(name_of_type(s.enums, s.aliases, tx)
                != name_of_type(s.enums, s.aliases, ty));
        } else {
            assert(name_of_type(s.enums, s.aliases, ty)
                != name_of_type(s.enums, s.aliases, tx));
        }
    }
    assert forall|t: int| 0 <= t < s.type_count() implies names.contains(s.name_of(t)) by {
        if t < e {
            assert(names[t] == s.name_of(t));
        } else {
            assert(order.contains(t - e));
            let k = choose|k: int| 0 <= k < order.len() && order[k] == t - e;
            assert(names[e + k] == s.name_of(t));
        }
    }
}

/// Dependency ordering: the named types of a schema without a circle have
/// an order of emission, and in it a named type that the definition of
/// alias `a` refers to stands before `a`.
pub proof fn lemma_referenced_type_comes_first(s: SchemaView, a: int, t: int)
    requires
        s.wf(),
        !has_cycle(s.aliases),
        0 <= a < s.aliases.len(),
        0 <= t < s.type_count(),
        if t < s.enums.len() {
            alias_refers_to_enum(s.aliases[a], s.name_of(t))
        } else {
            alias_refers_to(s.aliases[a], s.name_of(t))
        },
    ensures
        deps_order(s) is Some,
        exists|x: int, y: int|
            0 <= x < y < deps_order(s).unwrap().len() && deps_order(s).unwrap()[x] == s.name_of(t)
                && deps_order(s).unwrap()[y] == s.aliases[a].name,
{
    lemma_order_exists_iff_acyclic(s.aliases);
    let order = alias_order(s.aliases).unwrap();
    let names = deps_order(s).unwrap();
    let e = s.enums.len() as int;
    lemma_alias_order_sound(s.aliases);
    if t < e {
        assert(order.contains(a));
        let k = choose|k: int| 0 <= k < order.len() && order[k] == a;
        assert(names[t] == s.name_of(t));
        assert(names[e + k] == s.aliases[a].name);
        assert(0 <= t < e + k < names.len());
    } else {
        assert(depends(s.aliases, a, t - e));
        lemma_dependency_stands_before(s.aliases, a, t - e);
        let (x, y) = choose|x: int, y: int|
            0 <= x < y < s.aliases.len() && order[x] == t - e && order[y] == a;
        assert(names[e + x] == s.name_of(t));
        assert(names[e + y] == s.aliases[a].name);
        assert(0 <= e + x < e + y < names.len());
    }
}

/// The name of the alias that `t` refers to, directly or through a nullable
/// wrapper.
pub fn alias_reference(t: &TypeAnnotation) -> (r: Option<&String>)
    ensures
        match r {
            Some(name) => refers_to_alias(t@, name@),
            None => !(core_of(t@) is ObjectAlias),
        },
{
    match t {
        TypeAnnotation::ObjectAlias(a) => {
            assert(t@ == TypeView::ObjectAlias(a@));
            Some(&a.name)
        },
        TypeAnnotation::Nullable(inner) => {
            assert(t@ == TypeView::Nullable(Box::new(inner@)));
            match &**inner {
                TypeAnnotation::ObjectAlias(a) => {
                    assert(inner@ == TypeView::ObjectAlias(a@));
                    Some(&a.name)
                },
                _ => None,
            }
        },
        _ => None,
    }
}

/// The name of the enum that `t` refers to, directly or through a nullable
/// wrapper.
pub fn enum_reference(t: &TypeAnnotation) -> (r: Option<&String>)
    ensures
        match r {
            Some(name) => refers_to_enum(t@, name@),
            None => !(core_of(t@) is EnumAlias),
        },
{
    match t {
        TypeAnnotation::EnumAlias(e) => {
            assert(t@ == TypeView::EnumAlias(e@));
            Some(&e.name)
        },
        TypeAnnotation::Nullable(inner) => {
            assert(t@ == TypeView::Nullable(Box::new(inner@)));
            match &**inner {
                TypeAnnotation::EnumAlias(e) => {
                    assert(inner@ == TypeView::EnumAlias(e@));
                    Some(&e.name)
                },
                _ => None,
            }
        },
        _ => None,
    }
}

fn alias_depends(aliases: &Vec<ObjectAlias>, i: usize, j: usize) -> (b: bool)
    requires
        i < aliases.len(),
        j < aliases.len(),
    ensures
        b == depends(alias_views(aliases@), i as int, j as int),
{
    let ghost a = alias_views(aliases@)[i as int];
    let ghost name = alias_views(aliases@)[j as int].name;
    let props = &aliases[i].properties;
    let mut p: usize = 0;
    while p < props.len()
        invariant
            p <= props.len(),
            i < aliases.len(),
            j < aliases.len(),
            props == &aliases[i as int].properties,
            a == aliases[i as int]@,
            name == aliases[j as int].name@,
            forall|q: int|
                0 <= q < p ==> !refers_to_alias((#[trigger] a.properties[q]).type_annotation, name),
        decreases props.len() - p,
    {
        assert(a.properties[p as int].type_annotation == props[p as int].type_annotation@);
        match alias_reference(&props[p].type_annotation) {
            Some(n) => {
                if *n == aliases[j].name {
                    return true;
                }
            },
            None => {},
        }
        p += 1;
    }
    false
}

/// For each alias, which aliases it depends on.
fn dependency_table(aliases: &Vec<ObjectAlias>) -> (table: Vec<Vec<bool>>)
    ensures
        table.len() == aliases.len(),
        forall|i: int| 0 <= i < table.len() ==> (#[trigger] table[i]).len() == aliases.len(),
        forall|i: int, j: int|
            0 <= i < aliases.len() && 0 <= j < aliases.len() ==> #[trigger] table[i][j] == depends(
                alias_views(aliases@),
                i,
                j,
            ),
{
    let n = aliases.len();
    let mut table: Vec<Vec<bool>> = Vec::new();
    let mut i: usize = 0;
    while i < n
        invariant
            i <= n,
            n == aliases.len(),
            table.len() == i,
            forall|x: int| 0 <= x < i ==> (#[trigger] table[x]).len() == n,
            forall|x: int, y: int|
                0 <= x < i && 0 <= y < n ==> #[trigger] table[x][y] == depends(
                    alias_views(aliases@),
                    x,
                    y,
                ),
        decreases n - i,
    {
        let mut row: Vec<bool> = Vec::new();
        let mut j: usize = 0;
        while j < n
            invariant
                j <= n,
                i < n,
                n == aliases.len(),
                row.len() == j,
                forall|y: int|
                    0 <= y < j ==> #[trigger] row[y] == depends(alias_views(aliases@), i as int, y),
            decreases n - j,
        {
            let b = alias_depends(aliases, i, j);
            row.push(b);
            j += 1;
        }
        table.push(row);
        i += 1;
    }
    table
}

/// Whether every alias that the row marks has been placed.
fn row_placed(row: &Vec<bool>, placed: &Vec<bool>) -> (b: bool)
    requires
        row.len() == placed.len(),
    ensures
        b == forall|j: int| 0 <= j < row.len() && #[trigger] row[j] ==> placed[j],
{
    let mut j: usize = 0;
    while j < row.len()
        invariant
            j <= row.len(),
            row.len() == placed.len(),
            forall|y: int| 0 <= y < j && #[trigger] row[y] ==> placed[y],
        decreases row.len() - j,
    {
        if row[j] && !placed[j] {
            return false;
        }
        j += 1;
    }
    true
}

/// The aliases, by number, in the order of emission: each after the aliases
/// that its definition refers to, and otherwise in declaration order.
pub fn order_aliases(aliases: &Vec<ObjectAlias>) -> (res: Result<Vec<usize>, GenerationError>)
    ensures
        match res {
            Ok(order) => alias_order(alias_views(aliases@)) == Some(index_view(order@)),
            Err(e) => e == GenerationError::CyclicTypeDependency && alias_order(
                alias_views(aliases@),
            ) is None,
        },
        res is Err <==> has_cycle(alias_views(aliases@)),
{
    let ghost av = alias_views(aliases@);
    let n = aliases.len();
    let table = dependency_table(aliases);
    let mut placed: Vec<bool> = Vec::new();
    let mut k: usize = 0;
    while k < n
        invariant
            k <= n,
            placed.len() == k,
            forall|x: int| 0 <= x < k ==> !#[trigger] placed[x],
        decreases n - k,
    {
        placed.push(false);
        k += 1;
    }
    let mut order: Vec<usize> = Vec::new();
    assert(index_view(order@) =~= Seq::<int>::empty());
    while order.len() < n
        invariant
            n == aliases.len(),
            av == alias_views(aliases@),
            placed.len() == n,
            table.len() == n,
            forall|i: int| 0 <= i < n ==> (#[trigger] table[i]).len() == n,
            forall|i: int, j: int|
                0 <= i < n && 0 <= j < n ==> #[trigger] table[i][j] == depends(av, i, j),
            forall|i: int| 0 <= i < n ==> #[trigger] placed[i] == index_view(order@).contains(i),
            order.len() <= n,
            extend_order(av, index_view(order@)) == alias_order(av),
        decreases n - order.len(),
    {
        let ghost done = index_view(order@);
        let mut i: usize = 0;
        let mut found = false;
        while i < n && !found
            invariant
                i <= n,
                n == aliases.len(),
                av == alias_views(aliases@),
                placed.len() == n,
                table.len() == n,
                done == index_view(order@),
                forall|x: int| 0 <= x < n ==> (#[trigger] table[x]).len() == n,
                forall|x: int, y: int|
                    0 <= x < n && 0 <= y < n ==> #[trigger] table[x][y] == depends(av, x, y),
                forall|x: int| 0 <= x < n ==> #[trigger] placed[x] == done.contains(x),
                !found ==> first_ready(av, done, i as int) == first_ready(av, done, 0),
                found ==> i < n && first_ready(av, done, 0) == Some(i as int),
            decreases n - i + (if found { 0int } else { 1int }),
        {
            let row_ok = row_placed(&table[i], &placed);
            proof {
                let row = table[i as int];
                if row_ok {
                    assert forall|j: int| #[trigger] depends(av, i as int, j) implies done.contains(
                        j,
                    ) by {
                        assert(row[j] == depends(av, i as int, j));
                        assert(placed[j]);
                    }
                } else {
                    let j = choose|j: int| 0 <= j < row.len() && #[trigger] row[j] && !placed[j];
                    assert(depends(av, i as int, j));
                    assert(!done.contains(j));
                }
            }
            if !placed[i] && row_ok {
                found = true;
            } else {
                i += 1;
            }
        }
        if !found {
            assert(first_ready(av, done, n as int) is None);
            assert(done.len() < av.len());
            assert(extend_order(av, done) is None);
            proof {
                lemma_order_exists_iff_acyclic(av);
            }
            return Err(GenerationError::CyclicTypeDependency);
        }
        order.push(i);
        placed.set(i, true);
        proof {
            let after = index_view(order@);
            assert(after =~= done.push(i as int));
            assert forall|x: int| 0 <= x < n implies #[trigger] placed[x] == after.contains(x) by {
                if x == i {
                    assert(after[done.len() as int] == x);
                } else if done.contains(x) {
                    let w = choose|w: int| 0 <= w < done.len() && done[w] == x;
                    assert(after[w] == x);
                }
            }
        }
    }
    proof {
        lemma_order_exists_iff_acyclic(av);
    }
    Ok(order)
}

/// The names of the schema's named types in the order of emission: the enums
/// in declaration order, then the aliases, each after the aliases that its
/// definition refers to and otherwise in declaration order.
pub fn calc_deps_order(schema: &Schema) -> (res: Result<Vec<String>, GenerationError>)
    ensures
        match res {
            Ok(names) => deps_order(schema@) == Some(views(names@)),
            Err(e) => e == GenerationError::CyclicTypeDependency && deps_order(schema@) is None,
        },
        res is Err <==> has_cycle(schema@.aliases),
{
    let aliases = schema.aliases();
    let enums = schema.enums();
    let ghost av = schema@.aliases;
    let order = match order_aliases(aliases) {
        Ok(order) => order,
        Err(e) => {
            return Err(e);
        },
    };
    proof {
        lemma_alias_order_sound(av);
        assert forall|x: int| 0 <= x < order.len() implies #[trigger] order[x] < aliases.len() by {
            assert(index_view(order@)[x] == order[x]);
        }
    }
    let mut names: Vec<String> = Vec::new();
    let ghost ord = index_view(order@);
    let mut e: usize = 0;
    while e < enums.len()
        invariant
            e <= enums.len(),
            names.len() == e,
            enum_views(enums@) == schema@.enums,
            views(names@) == Seq::new(e as nat, |k: int| schema@.enums[k].name),
        decreases enums.len() - e,
    {
        let ghost before = names@;
        assert(enum_views(enums@)[e as int].name == enums[e as int].name@);
        names.push(enums[e].name.clone());
        assert forall|k: int| 0 <= k < e implies views(names@)[k] == schema@.enums[k].name by {
            assert(views(before)[k] == before[k]@);
        }
        assert(views(names@) =~= Seq::new((e + 1) as nat, |k: int| schema@.enums[k].name));
        e += 1;
    }
    let mut a: usize = 0;
    while a < order.len()
        invariant
            a <= order.len(),
            names.len() == schema@.enums.len() + a,
            ord == index_view(order@),
            av == alias_views(aliases@),
            av == schema@.aliases,
            forall|x: int| 0 <= x < order.len() ==> #[trigger] order[x] < aliases.len(),
            views(names@) == Seq::new(schema@.enums.len(), |k: int| schema@.enums[k].name)
                + Seq::new(a as nat, |k: int| av[ord[k]].name),
        decreases order.len() - a,
    {
        let ghost before = names@;
        let ghost shown = Seq::new(schema@.enums.len(), |k: int| schema@.enums[k].name) + Seq::new(
            a as nat,
            |k: int| av[ord[k]].name,
        );
        assert(ord[a as int] == order[a as int]);
        assert(av[ord[a as int]].name == aliases[order[a as int] as int].name@);
        names.push(aliases[order[a]].name.clone());
        proof {
            let heads = Seq::new(schema@.enums.len(), |k: int| schema@.enums[k].name);
            let target = heads + Seq::new((a + 1) as nat, |k: int| av[ord[k]].name);
            assert forall|k: int| 0 <= k < names.len() implies views(names@)[k] == target[k] by {
                if k < before.len() {
                    assert(views(before)[k] == before[k]@);
                    assert(shown[k] == target[k]);
                } else {
                    assert(target[k] == av[ord[k - heads.len()]].name);
                }
            }
            assert(views(names@) =~= target);
        }
        a += 1;
    }
    assert(views(names@) =~= names_in_order(schema@, ord));
    Ok(names)
}

} // verus!
