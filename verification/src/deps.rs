//! Dependency resolver: the order in which units start.
//!
//! Given a target unit name and the loaded units, computes the transitive
//! closure of units that must be started and returns them in activation order
//! (dependencies before dependents).
//!
//! `Wants=` and `After=` dependencies that cannot be loaded are skipped.
//! A `Requires=` dependency that cannot be loaded is an error. An ordering
//! cycle drops the edge that closes it.
//!
//! Loading a unit reads files, so it is done by the caller:
//! [`missing_dependencies`] says what to load next, and
//! [`resolve_start_order`] works on what was loaded.

use vstd::prelude::*;

use crate::names::NameMap;
use crate::text;
use crate::unit::{LoadedUnit, UnitSection, UnitState};

verus! {

/// Runtime record held in the unit registry (used for ordering queries).
pub struct DepUnit<'a> {
    pub loaded: &'a LoadedUnit,
    pub state: UnitState,
}

/// A `Requires=` dependency that could not be loaded.
#[derive(Debug)]
pub struct MissingRequirement {
    pub name: String,
}

/// The units that a resolution can use, by name.
pub struct Graph {
    pub units: Map<Seq<char>, UnitSection>,
    /// Skip required dependencies too when they are not there.
    pub lenient: bool,
}

/// One dependency of a unit, and whether it must be there.
pub struct Edge {
    pub dep: Seq<char>,
    pub required: bool,
}

/// Edges to the given names.
pub open spec fn edges_to(names: Seq<Seq<char>>, required: bool) -> Seq<Edge> {
    names.map_values(|dep: Seq<char>| Edge { dep, required })
}

impl Graph {
    /// Whether a unit can be used.
    pub open spec fn has(self, name: Seq<char>) -> bool {
        self.units.dom().contains(name)
    }

    /// The dependencies of a unit in the order in which they are followed:
    /// `Requires=`, then `Wants=`, then `After=`.
    pub open spec fn edges(self, name: Seq<char>) -> Seq<Edge> {
        edges_to(text::views(self.units[name].requires@), !self.lenient) + edges_to(text::views(self.units[name].wants@), false)
            + edges_to(text::views(self.units[name].after@), false)
    }

    /// Whether unit `a` names `b` as a dependency.
    pub open spec fn names_dependency(self, a: Seq<char>, b: Seq<char>) -> bool {
        self.has(a) && exists|i: int| 0 <= i < self.edges(a).len() && (#[trigger] self.edges(a)[i]).dep == b
    }

    /// Whether unit `a` must have `b`.
    pub open spec fn must_have(self, a: Seq<char>, b: Seq<char>) -> bool {
        self.has(a) && exists|i: int| 0 <= i < self.edges(a).len() && (#[trigger] self.edges(a)[i]).dep == b && self.edges(a)[i].required
    }

    /// Whether unit `a` depends on unit `b`, both being there.
    pub open spec fn depends(self, a: Seq<char>, b: Seq<char>) -> bool {
        self.names_dependency(a, b) && self.has(b)
    }

    pub open spec fn step(self, path: Seq<Seq<char>>, i: int) -> bool {
        self.depends(path[i], path[i + 1])
    }

    pub open spec fn is_path(self, path: Seq<Seq<char>>, a: Seq<char>, b: Seq<char>) -> bool {
        &&& path.len() >= 2
        &&& path[0] == a
        &&& path.last() == b
        &&& forall|i: int| 0 <= i < path.len() - 1 ==> #[trigger] self.step(path, i)
    }

    /// Whether `a` depends on `b` through one or more dependencies.
    pub open spec fn reaches(self, a: Seq<char>, b: Seq<char>) -> bool {
        exists|path: Seq<Seq<char>>| self.is_path(path, a, b)
    }
}

pub proof fn lemma_smaller(units: Set<Seq<char>>, stack: Set<Seq<char>>, name: Seq<char>)
    requires
        units.finite(),
        units.contains(name),
        !stack.contains(name),
    ensures
        units.difference(stack.insert(name)).len() < units.difference(stack).len(),
{
    let wide = units.difference(stack);
    assert(units.difference(stack.insert(name)) =~= wide.remove(name));
    assert(wide.contains(name));
}

/// The start order after following `name`, on top of what was ordered before.
///
/// Units on `stack` are being followed already: an edge to one of them closes
/// a cycle and is dropped. A unit comes after everything it depends on. The
/// error is the dependency that should be there and is not.
pub open spec fn visit(g: Graph, stack: Set<Seq<char>>, order: Seq<Seq<char>>, name: Seq<char>) -> Result<Seq<Seq<char>>, Seq<char>>
    decreases g.units.dom().difference(stack).len(), 0nat,
    when g.units.dom().finite()
{
    proof {
        if g.has(name) && !stack.contains(name) {
            lemma_smaller(g.units.dom(), stack, name);
        }
    }
    if order.contains(name) || stack.contains(name) {
        Ok(order)
    } else if !g.has(name) {
        Ok(order.push(name))
    } else {
        match visit_all(g, stack.insert(name), order, g.edges(name)) {
            Ok(done) => Ok(done.push(name)),
            Err(missing) => Err(missing),
        }
    }
}

/// The start order after following `edges` one by one.
pub open spec fn visit_all(g: Graph, stack: Set<Seq<char>>, order: Seq<Seq<char>>, edges: Seq<Edge>) -> Result<Seq<Seq<char>>, Seq<char>>
    decreases g.units.dom().difference(stack).len(), edges.len(),
    when g.units.dom().finite()
{
    if edges.len() == 0 {
        Ok(order)
    } else if !g.has(edges[0].dep) {
        if edges[0].required {
            Err(edges[0].dep)
        } else {
            visit_all(g, stack, order, edges.drop_first())
        }
    } else {
        match visit(g, stack, order, edges[0].dep) {
            Ok(next) => visit_all(g, stack, next, edges.drop_first()),
            Err(missing) => Err(missing),
        }
    }
}

/// The sections of the units in a registry.
pub open spec fn known_sections(known: Map<Seq<char>, DepUnit<'_>>) -> Map<Seq<char>, UnitSection> {
    known.map_values(|unit: DepUnit<'_>| unit.loaded.section())
}

/// The sections of units that were loaded for a resolution.
pub open spec fn loaded_sections(loaded: Map<Seq<char>, LoadedUnit>) -> Map<Seq<char>, UnitSection> {
    loaded.map_values(|unit: LoadedUnit| unit.section())
}

/// Registered and newly loaded units together; the registry's count first.
pub open spec fn graph(known: Map<Seq<char>, DepUnit<'_>>, loaded: Map<Seq<char>, LoadedUnit>, lenient: bool) -> Graph {
    Graph { units: loaded_sections(loaded).union_prefer_right(known_sections(known)), lenient }
}

/// The start order for `target`: the depth-first order from it, or `target`
/// alone where the registry does not hold it.
pub open spec fn start_order(known: Map<Seq<char>, DepUnit<'_>>, loaded: Map<Seq<char>, LoadedUnit>, target: Seq<char>, lenient: bool) -> Result<Seq<Seq<char>>, Seq<char>> {
    if known.dom().contains(target) {
        visit(graph(known, loaded, lenient), Set::empty(), Seq::empty(), target)
    } else {
        Ok(seq![target])
    }
}

proof fn lemma_one_step(g: Graph, a: Seq<char>, b: Seq<char>)
    requires
        g.depends(a, b),
    ensures
        g.reaches(a, b),
{
    let path = seq![a, b];
    assert forall|i: int| 0 <= i < path.len() - 1 implies #[trigger] g.step(path, i) by {
        assert(path[0] == a && path[1] == b);
    }
    assert(g.is_path(path, a, b));
}

proof fn lemma_extend(g: Graph, a: Seq<char>, b: Seq<char>, c: Seq<char>)
    requires
        g.reaches(a, b),
        g.depends(b, c),
    ensures
        g.reaches(a, c),
{
    let path = choose|path: Seq<Seq<char>>| g.is_path(path, a, b);
    let longer = path.push(c);
    assert forall|i: int| 0 <= i < longer.len() - 1 implies #[trigger] g.step(longer, i) by {
        if i < path.len() - 1 {
            assert(g.step(path, i));
            assert(longer[i] == path[i] && longer[i + 1] == path[i + 1]);
        } else {
            assert(longer[i] == path.last() && longer[i + 1] == c);
        }
    }
    assert(g.is_path(longer, a, c));
}

proof fn lemma_join(g: Graph, a: Seq<char>, b: Seq<char>, c: Seq<char>)
    requires
        g.reaches(a, b),
        g.reaches(b, c),
    ensures
        g.reaches(a, c),
{
    let p = choose|p: Seq<Seq<char>>| g.is_path(p, a, b);
    let q = choose|q: Seq<Seq<char>>| g.is_path(q, b, c);
    let joined = p + q.drop_first();
    assert forall|i: int| 0 <= i < joined.len() - 1 implies #[trigger] g.step(joined, i) by {
        if i < p.len() - 1 {
            assert(g.step(p, i));
            assert(joined[i] == p[i] && joined[i + 1] == p[i + 1]);
        } else {
            let k = i - (p.len() - 1);
            assert(g.step(q, k));
            assert(joined[i] == q[k]) by {
                if k == 0 {
                    assert(joined[i] == p.last());
                }
            }
            assert(joined[i + 1] == q[k + 1]);
        }
    }
    assert(joined.last() == c);
    assert(g.is_path(joined, a, c));
}

/// What holds of the units ordered so far while `stack` is being followed.
pub open spec fn order_ok(g: Graph, stack: Set<Seq<char>>, order: Seq<Seq<char>>) -> bool {
    &&& order.no_duplicates()
    &&& forall|i: int| 0 <= i < order.len() ==> !stack.contains(#[trigger] order[i])
    &&& forall|i: int, b: Seq<char>| 0 <= i < order.len() && #[trigger] g.depends(order[i], b) ==> order.contains(b) || stack.contains(b)
    &&& forall|i: int, b: Seq<char>| 0 <= i < order.len() && #[trigger] g.must_have(order[i], b) ==> g.has(b)
    &&& forall|i: int, b: Seq<char>| 0 <= i < order.len() && #[trigger] g.depends(order[i], b) && !order.take(i).contains(b) ==> g.reaches(b, order[i])
}

/// Whether `name` is `top` or `top` depends on it in the end.
pub open spec fn at_or_below(g: Graph, top: Seq<char>, name: Seq<char>) -> bool {
    name == top || g.reaches(top, name)
}

/// Whether some unit at or below `top` must have `missing`, which is not there.
pub open spec fn lacks(g: Graph, top: Seq<char>, missing: Seq<char>) -> bool {
    !g.has(missing) && exists|n: Seq<char>| #[trigger] at_or_below(g, top, n) && g.must_have(n, missing)
}

/// What [`visit`] guarantees.
spec fn visited_ok(g: Graph, stack: Set<Seq<char>>, order: Seq<Seq<char>>, name: Seq<char>, result: Result<Seq<Seq<char>>, Seq<char>>) -> bool {
    match result {
        Ok(next) => {
            &&& order_ok(g, stack, next)
            &&& order.is_prefix_of(next)
            &&& next.contains(name) || stack.contains(name)
            &&& forall|i: int| order.len() <= i < next.len() ==> at_or_below(g, name, #[trigger] next[i])
            &&& !order.contains(name) && !stack.contains(name) ==> next.len() > 0 && next.last() == name
        },
        Err(missing) => lacks(g, name, missing),
    }
}

proof fn lemma_visit(g: Graph, stack: Set<Seq<char>>, order: Seq<Seq<char>>, name: Seq<char>)
    requires
        g.units.dom().finite(),
        order_ok(g, stack, order),
        forall|s: Seq<char>| #[trigger] stack.contains(s) ==> g.reaches(s, name),
    ensures
        visited_ok(g, stack, order, name, visit(g, stack, order, name)),
    decreases g.units.dom().difference(stack).len(), 0nat,
{
    let result = visit(g, stack, order, name);
    if order.contains(name) || stack.contains(name) {
    } else if !g.has(name) {
        let next = order.push(name);
        assert(next[order.len() as int] == name);
        assert forall|i: int, b: Seq<char>| 0 <= i < next.len() && #[trigger] g.depends(next[i], b) implies next.contains(b) || stack.contains(b) by {
            assert(g.depends(order[i], b));
            if order.contains(b) {
                let k = choose|k: int| 0 <= k < order.len() && order[k] == b;
                assert(next[k] == b);
            }
        }
        assert forall|i: int, b: Seq<char>| 0 <= i < next.len() && #[trigger] g.depends(next[i], b) && !next.take(i).contains(b) implies g.reaches(b, next[i]) by {
            assert(g.depends(order[i], b));
            assert(next.take(i) =~= order.take(i));
        }
        assert forall|i: int, b: Seq<char>| 0 <= i < next.len() && #[trigger] g.must_have(next[i], b) implies g.has(b) by {
            assert(g.must_have(order[i], b));
        }
        assert(next.no_duplicates());
    } else {
        lemma_smaller(g.units.dom(), stack, name);
        let inner = stack.insert(name);
        let edges = g.edges(name);
        assert forall|i: int, b: Seq<char>| 0 <= i < order.len() && #[trigger] g.depends(order[i], b) implies order.contains(b) || inner.contains(b) by {}
        assert forall|i: int| 0 <= i < order.len() implies !inner.contains(#[trigger] order[i]) by {}
        assert(order_ok(g, inner, order));
        assert forall|i: int| 0 <= i < edges.len() implies g.names_dependency(name, (#[trigger] edges[i]).dep) && (edges[i].required ==> g.must_have(name, edges[i].dep)) by {
            assert(g.edges(name)[i].dep == edges[i].dep);
        }
        lemma_visit_all(g, inner, order, edges, name);
        match visit_all(g, inner, order, edges) {
            Ok(done) => {
                let next = done.push(name);
                assert(next[done.len() as int] == name);
                assert(!done.contains(name)) by {
                    if done.contains(name) {
                        let k = choose|k: int| 0 <= k < done.len() && done[k] == name;
                        assert(inner.contains(done[k]));
                    }
                }
                assert(next.no_duplicates());
                assert forall|i: int| 0 <= i < next.len() implies !stack.contains(#[trigger] next[i]) by {
                    if i < done.len() {
                        assert(!inner.contains(done[i]));
                    }
                }
                assert forall|i: int, b: Seq<char>| 0 <= i < next.len() && #[trigger] g.depends(next[i], b) implies next.contains(b) || stack.contains(b) by {
                    if i < done.len() {
                        assert(g.depends(done[i], b));
                    } else {
                        let e = choose|e: int| 0 <= e < g.edges(name).len() && (#[trigger] g.edges(name)[e]).dep == b;
                        assert(edges[e].dep == b);
                    }
                    if done.contains(b) {
                        let k = choose|k: int| 0 <= k < done.len() && done[k] == b;
                        assert(next[k] == b);
                    }
                }
                assert forall|i: int, b: Seq<char>| 0 <= i < next.len() && #[trigger] g.must_have(next[i], b) implies g.has(b) by {
                    if i < done.len() {
                        assert(g.must_have(done[i], b));
                    } else {
                        let e = choose|e: int| 0 <= e < g.edges(name).len() && (#[trigger] g.edges(name)[e]).dep == b && g.edges(name)[e].required;
                        assert(edges[e].dep == b);
                    }
                }
                assert forall|i: int, b: Seq<char>| 0 <= i < next.len() && #[trigger] g.depends(next[i], b) && !next.take(i).contains(b) implies g.reaches(b, next[i]) by {
                    if i < done.len() {
                        assert(g.depends(done[i], b));
                        assert(next.take(i) =~= done.take(i));
                    } else {
                        assert(next.take(i) =~= done);
                        let e = choose|e: int| 0 <= e < g.edges(name).len() && (#[trigger] g.edges(name)[e]).dep == b;
                        assert(edges[e].dep == b);
                        assert(inner.contains(b));
                        if b == name {
                            lemma_one_step(g, name, name);
                        }
                    }
                }
                assert forall|i: int| order.len() <= i < next.len() implies at_or_below(g, name, #[trigger] next[i]) by {
                    if i < done.len() {
                        assert(at_or_below(g, name, done[i]));
                    }
                }
            },
            Err(missing) => {},
        }
    }
}

spec fn visited_all_ok(g: Graph, stack: Set<Seq<char>>, order: Seq<Seq<char>>, edges: Seq<Edge>, top: Seq<char>, result: Result<Seq<Seq<char>>, Seq<char>>) -> bool {
    match result {
        Ok(next) => {
            &&& order_ok(g, stack, next)
            &&& order.is_prefix_of(next)
            &&& forall|i: int| 0 <= i < edges.len() && g.has((#[trigger] edges[i]).dep) ==> next.contains(edges[i].dep) || stack.contains(edges[i].dep)
            &&& forall|i: int| 0 <= i < edges.len() && (#[trigger] edges[i]).required ==> g.has(edges[i].dep)
            &&& forall|i: int| order.len() <= i < next.len() ==> at_or_below(g, top, #[trigger] next[i])
        },
        Err(missing) => lacks(g, top, missing),
    }
}

proof fn lemma_visit_all(g: Graph, stack: Set<Seq<char>>, order: Seq<Seq<char>>, edges: Seq<Edge>, top: Seq<char>)
    requires
        g.units.dom().finite(),
        order_ok(g, stack, order),
        g.has(top),
        forall|s: Seq<char>| #[trigger] stack.contains(s) ==> at_or_below(g, s, top),
        forall|i: int| 0 <= i < edges.len() ==> g.names_dependency(top, (#[trigger] edges[i]).dep) && (edges[i].required ==> g.must_have(top, edges[i].dep)),
    ensures
        visited_all_ok(g, stack, order, edges, top, visit_all(g, stack, order, edges)),
    decreases g.units.dom().difference(stack).len(), edges.len(),
{
    if edges.len() == 0 {
    } else {
        let first = edges[0];
        let rest = edges.drop_first();
        assert(g.names_dependency(top, first.dep));
        assert forall|i: int| 0 <= i < rest.len() implies g.names_dependency(top, (#[trigger] rest[i]).dep) && (rest[i].required ==> g.must_have(top, rest[i].dep)) by {
            assert(rest[i] == edges[i + 1]);
        }
        if !g.has(first.dep) {
            if first.required {
                assert(at_or_below(g, top, top));
                assert(g.must_have(top, first.dep));
            } else {
                lemma_visit_all(g, stack, order, rest, top);
                lemma_split_edges(g, stack, order, edges, top);
            }
        } else {
            assert(g.depends(top, first.dep));
            lemma_one_step(g, top, first.dep);
            assert forall|s: Seq<char>| #[trigger] stack.contains(s) implies g.reaches(s, first.dep) by {
                if s != top {
                    lemma_extend(g, s, top, first.dep);
                }
            }
            lemma_visit(g, stack, order, first.dep);
            match visit(g, stack, order, first.dep) {
                Ok(next) => {
                    lemma_visit_all(g, stack, next, rest, top);
                    match visit_all(g, stack, next, rest) {
                        Ok(done) => {
                            assert forall|i: int| order.len() <= i < done.len() implies at_or_below(g, top, #[trigger] done[i]) by {
                                if i < next.len() {
                                    assert(done[i] == next[i]);
                                    assert(at_or_below(g, first.dep, next[i]));
                                    if next[i] != first.dep {
                                        lemma_join(g, top, first.dep, next[i]);
                                    }
                                }
                            }
                            if next.contains(first.dep) {
                                let k = choose|k: int| 0 <= k < next.len() && next[k] == first.dep;
                                assert(done[k] == first.dep);
                            }
                            assert forall|i: int| 0 <= i < edges.len() && g.has((#[trigger] edges[i]).dep) implies done.contains(edges[i].dep) || stack.contains(edges[i].dep) by {
                                if i > 0 {
                                    assert(rest[i - 1] == edges[i]);
                                }
                            }
                            assert forall|i: int| 0 <= i < edges.len() && (#[trigger] edges[i]).required implies g.has(edges[i].dep) by {
                                if i > 0 {
                                    assert(rest[i - 1] == edges[i]);
                                }
                            }
                        },
                        Err(missing) => {},
                    }
                },
                Err(missing) => {
                    let n = choose|n: Seq<char>| #[trigger] at_or_below(g, first.dep, n) && g.must_have(n, missing);
                    if n != first.dep {
                        lemma_join(g, top, first.dep, n);
                    }
                    assert(at_or_below(g, top, n));
                },
            }
        }
    }
}

proof fn lemma_split_edges(g: Graph, stack: Set<Seq<char>>, order: Seq<Seq<char>>, edges: Seq<Edge>, top: Seq<char>)
    requires
        edges.len() > 0,
        !g.has(edges[0].dep),
        !edges[0].required,
        visited_all_ok(g, stack, order, edges.drop_first(), top, visit_all(g, stack, order, edges.drop_first())),
    ensures
        visited_all_ok(g, stack, order, edges, top, visit_all(g, stack, order, edges.drop_first())),
{
    let rest = edges.drop_first();
    match visit_all(g, stack, order, rest) {
        Ok(done) => {
            assert forall|i: int| 0 <= i < edges.len() && g.has((#[trigger] edges[i]).dep) implies done.contains(edges[i].dep) || stack.contains(edges[i].dep) by {
                assert(i > 0);
                assert(rest[i - 1] == edges[i]);
            }
            assert forall|i: int| 0 <= i < edges.len() && (#[trigger] edges[i]).required implies g.has(edges[i].dep) by {
                assert(i > 0);
                assert(rest[i - 1] == edges[i]);
            }
        },
        Err(missing) => {},
    }
}

proof fn lemma_visit_all_concat(g: Graph, stack: Set<Seq<char>>, order: Seq<Seq<char>>, a: Seq<Edge>, b: Seq<Edge>)
    requires
        g.units.dom().finite(),
    ensures
        visit_all(g, stack, order, a + b) == (match visit_all(g, stack, order, a) {
            Ok(next) => visit_all(g, stack, next, b),
            Err(missing) => Err(missing),
        }),
    decreases a.len(),
{
    if a.len() == 0 {
        assert(a + b =~= b);
    } else {
        assert((a + b).drop_first() =~= a.drop_first() + b);
        assert((a + b)[0] == a[0]);
        if !g.has(a[0].dep) {
            lemma_visit_all_concat(g, stack, order, a.drop_first(), b);
        } else {
            match visit(g, stack, order, a[0].dep) {
                Ok(next) => {
                    lemma_visit_all_concat(g, stack, next, a.drop_first(), b);
                },
                Err(missing) => {},
            }
        }
    }
}

/// The names on a stack of strings.
spec fn names_on(stack: Seq<String>) -> Set<Seq<char>> {
    text::views(stack).to_set()
}

proof fn lemma_finite(known: &NameMap<DepUnit<'_>>, loaded: &NameMap<LoadedUnit>, lenient: bool)
    requires
        known.wf(),
        loaded.wf(),
    ensures
        graph(known@, loaded@, lenient).units.dom().finite(),
{
    known.lemma_keys();
    loaded.lemma_keys();
    assert(known_sections(known@).dom() =~= known@.dom());
    assert(loaded_sections(loaded@).dom() =~= loaded@.dom());
    assert(graph(known@, loaded@, lenient).units.dom() =~= loaded@.dom().union(known@.dom()));
}

/// The section of a unit that is registered or was loaded.
fn section_of<'b>(known: &'b NameMap<DepUnit<'_>>, loaded: &'b NameMap<LoadedUnit>, name: &str) -> (r: Option<&'b UnitSection>)
    requires
        known.wf(),
        loaded.wf(),
    ensures
        forall|lenient: bool| #![trigger graph(known@, loaded@, lenient)] match r {
            Some(section) => graph(known@, loaded@, lenient).has(name@) && *section == graph(known@, loaded@, lenient).units[name@],
            None => !graph(known@, loaded@, lenient).has(name@),
        },
{
    match known.get(name) {
        Some(unit) => Some(unit.loaded.unit_section()),
        None => match loaded.get(name) {
            Some(unit) => Some(unit.unit_section()),
            None => None,
        },
    }
}

/// Follow `name` and append what it needs, then it, to `order`.
fn resolve(known: &NameMap<DepUnit<'_>>, loaded: &NameMap<LoadedUnit>, lenient: bool, name: &str, stack: &mut Vec<String>, order: &mut Vec<String>) -> (r: Result<(), MissingRequirement>)
    requires
        known.wf(),
        loaded.wf(),
    ensures
        match r {
            Ok(_) => visit(graph(known@, loaded@, lenient), names_on(old(stack)@), text::views(old(order)@), name@) == Ok::<Seq<Seq<char>>, Seq<char>>(text::views(final(order)@)) && final(stack)@ == old(stack)@,
            Err(missing) => visit(graph(known@, loaded@, lenient), names_on(old(stack)@), text::views(old(order)@), name@) == Err::<Seq<Seq<char>>, Seq<char>>(missing.name@),
        },
    decreases graph(known@, loaded@, lenient).units.dom().difference(names_on(old(stack)@)).len(), 0nat,
{
    proof {
        lemma_finite(known, loaded, lenient);
    }
    let ghost g = graph(known@, loaded@, lenient);
    let ghost start = stack@;
    let ghost outer = names_on(stack@);
    let ghost before = text::views(order@);
    if text::contains_name(order, name) {
        return Ok(());
    }
    if text::contains_name(stack, name) {
        return Ok(());
    }
    let section = match section_of(known, loaded, name) {
        Some(section) => section,
        None => {
            assert(!g.has(name@));
            order.push(name.to_owned());
            assert(text::views(order@) =~= before.push(name@));
            return Ok(());
        },
    };
    assert(g.has(name@) && *section == g.units[name@]);
    stack.push(name.to_owned());
    proof {
        lemma_smaller(g.units.dom(), outer, name@);
        assert(text::views(stack@) =~= text::views(start).push(name@));
        assert(names_on(stack@) =~= outer.insert(name@)) by {
            text::views(start).lemma_push_to_set_commute(name@);
        }
        let a = edges_to(text::views(section.requires@), !lenient);
        let b = edges_to(text::views(section.wants@), false);
        let c = edges_to(text::views(section.after@), false);
        assert(g.edges(name@) == a + b + c);
        lemma_visit_all_concat(g, outer.insert(name@), before, a + b, c);
        lemma_visit_all_concat(g, outer.insert(name@), before, a, b);
    }
    let ghost inner = stack@;
    if let Err(missing) = follow(known, loaded, lenient, &section.requires, !lenient, stack, order) {
        return Err(missing);
    }
    if let Err(missing) = follow(known, loaded, lenient, &section.wants, false, stack, order) {
        return Err(missing);
    }
    if let Err(missing) = follow(known, loaded, lenient, &section.after, false, stack, order) {
        return Err(missing);
    }
    assert(stack@ == inner);
    stack.pop();
    assert(stack@ =~= start);
    let ghost done = text::views(order@);
    order.push(name.to_owned());
    assert(text::views(order@) =~= done.push(name@));
    Ok(())
}

/// Follow the dependencies in `deps` one by one.
fn follow(known: &NameMap<DepUnit<'_>>, loaded: &NameMap<LoadedUnit>, lenient: bool, deps: &Vec<String>, required: bool, stack: &mut Vec<String>, order: &mut Vec<String>) -> (r: Result<(), MissingRequirement>)
    requires
        known.wf(),
        loaded.wf(),
    ensures
        match r {
            Ok(_) => visit_all(graph(known@, loaded@, lenient), names_on(old(stack)@), text::views(old(order)@), edges_to(text::views(deps@), required)) == Ok::<Seq<Seq<char>>, Seq<char>>(text::views(final(order)@)) && final(stack)@ == old(stack)@,
            Err(missing) => visit_all(graph(known@, loaded@, lenient), names_on(old(stack)@), text::views(old(order)@), edges_to(text::views(deps@), required)) == Err::<Seq<Seq<char>>, Seq<char>>(missing.name@),
        },
    decreases graph(known@, loaded@, lenient).units.dom().difference(names_on(old(stack)@)).len(), 1nat,
{
    proof {
        lemma_finite(known, loaded, lenient);
    }
    let ghost g = graph(known@, loaded@, lenient);
    let ghost start = stack@;
    let ghost on = names_on(stack@);
    let ghost edges = edges_to(text::views(deps@), required);
    let ghost whole = visit_all(g, on, text::views(order@), edges);
    assert(edges.skip(0) =~= edges);
    let mut i: usize = 0;
    while i < deps.len()
        invariant
            known.wf(),
            loaded.wf(),
            g == graph(known@, loaded@, lenient),
            g.units.dom().finite(),
            start == old(stack)@,
            stack@ == start,
            on == names_on(start),
            i <= deps@.len(),
            edges == edges_to(text::views(deps@), required),
            whole == visit_all(g, on, text::views(old(order)@), edges),
            visit_all(g, on, text::views(order@), edges.skip(i as int)) == whole,
        decreases deps@.len() - i,
    {
        let dep = deps[i].as_str();
        proof {
            assert(edges.skip(i as int)[0] == edges[i as int]);
            assert(edges[i as int].dep == dep@);
            assert(edges.skip(i as int).drop_first() =~= edges.skip(i + 1));
        }
        match section_of(known, loaded, dep) {
            Some(_) => {
                assert(g.has(dep@));
                if let Err(missing) = resolve(known, loaded, lenient, dep, stack, order) {
                    return Err(missing);
                }
            },
            None => {
                assert(!g.has(dep@));
                if required {
                    return Err(MissingRequirement { name: deps[i].clone() });
                }
            },
        }
        i += 1;
    }
    assert(edges.skip(i as int) =~= Seq::<Edge>::empty());
    Ok(())
}

/// Resolve the ordered start sequence for `target`.
///
/// Returns units in topological order: all dependencies before the unit that
/// depends on them.  The target itself is the last element.
///
/// `known` is the unit registry; `loaded` holds the units that were loaded
/// for this resolution and that the registry does not hold yet.
pub fn resolve_start_order(target: &str, known: &NameMap<DepUnit<'_>>, loaded: &NameMap<LoadedUnit>) -> (r: Result<Vec<String>, MissingRequirement>)
    requires
        known.wf(),
        loaded.wf(),
    ensures
        match r {
            Ok(order) => start_order(known@, loaded@, target@, false) == Ok::<Seq<Seq<char>>, Seq<char>>(text::views(order@)),
            Err(missing) => start_order(known@, loaded@, target@, false) == Err::<Seq<Seq<char>>, Seq<char>>(missing.name@),
        },
{
    ordered(target, known, loaded, false)
}

fn ordered(target: &str, known: &NameMap<DepUnit<'_>>, loaded: &NameMap<LoadedUnit>, lenient: bool) -> (r: Result<Vec<String>, MissingRequirement>)
    requires
        known.wf(),
        loaded.wf(),
    ensures
        match r {
            Ok(order) => start_order(known@, loaded@, target@, lenient) == Ok::<Seq<Seq<char>>, Seq<char>>(text::views(order@)),
            Err(missing) => start_order(known@, loaded@, target@, lenient) == Err::<Seq<Seq<char>>, Seq<char>>(missing.name@),
        },
{
    let mut order: Vec<String> = Vec::new();
    if !known.contains(target) {
        order.push(target.to_owned());
        assert(text::views(order@) =~= seq![target@]);
        return Ok(order);
    }
    let mut stack: Vec<String> = Vec::new();
    proof {
        assert(names_on(stack@) =~= Set::<Seq<char>>::empty());
        assert(text::views(order@) =~= Seq::<Seq<char>>::empty());
    }
    match resolve(known, loaded, lenient, target, &mut stack, &mut order) {
        Ok(_) => Ok(order),
        Err(missing) => Err(missing),
    }
}

/// Whether `dep` is named by a unit that a start of `target` pulls in, cannot
/// be used yet, and was not tried.
pub open spec fn still_wanted(known: Map<Seq<char>, DepUnit<'_>>, loaded: Map<Seq<char>, LoadedUnit>, tried: Seq<Seq<char>>, target: Seq<char>, dep: Seq<char>) -> bool {
    let g = graph(known, loaded, true);
    &&& known.dom().contains(target)
    &&& !g.has(dep)
    &&& !tried.contains(dep)
    &&& exists|n: Seq<char>| #[trigger] at_or_below(g, target, n) && g.names_dependency(n, dep)
}

/// The dependencies to load before `target` can be resolved for good, each
/// once. `tried` holds those whose loading failed. When nothing is left, every
/// dependency that the resolution meets is registered, loaded or known to
/// be missing.
pub fn missing_dependencies(target: &str, known: &NameMap<DepUnit<'_>>, loaded: &NameMap<LoadedUnit>, tried: &Vec<String>) -> (r: Vec<String>)
    requires
        known.wf(),
        loaded.wf(),
    ensures
        text::views(r@).no_duplicates(),
        forall|dep: Seq<char>| #[trigger] text::views(r@).contains(dep) <==> still_wanted(known@, loaded@, text::views(tried@), target@, dep),
{
    let mut out: Vec<String> = Vec::new();
    let ghost g = graph(known@, loaded@, true);
    assert(text::views(out@) =~= Seq::<Seq<char>>::empty());
    if !known.contains(target) {
        return out;
    }
    proof {
        lemma_finite(known, loaded, true);
        lemma_closure(g, target@);
    }
    let order = match ordered(target, known, loaded, true) {
        Ok(order) => order,
        Err(_) => {
            proof {
                lemma_lenient(g, target@);
            }
            return out;
        },
    };
    let ghost listed = text::views(order@);
    let mut i: usize = 0;
    while i < order.len()
        invariant
            known.wf(),
            loaded.wf(),
            g == graph(known@, loaded@, true),
            listed == text::views(order@),
            i <= order@.len(),
            text::views(out@).no_duplicates(),
            forall|dep: Seq<char>| #[trigger] text::views(out@).contains(dep) <==> named_below(g, listed, i as int, text::views(tried@), dep),
        decreases order@.len() - i,
    {
        assert(listed[i as int] == order@[i as int]@);
        if let Some(section) = section_of(known, loaded, order[i].as_str()) {
            let ghost prev = text::views(out@);
            let ghost name = listed[i as int];
            assert(g.has(name) && *section == g.units[name]);
            collect_missing(known, loaded, tried, &section.requires, &mut out);
            collect_missing(known, loaded, tried, &section.wants, &mut out);
            collect_missing(known, loaded, tried, &section.after, &mut out);
            proof {
                assert forall|dep: Seq<char>| #[trigger] text::views(out@).contains(dep) <==> named_below(g, listed, i + 1, text::views(tried@), dep) by {
                    lemma_names_dependency(g, name, dep);
                    assert(prev.contains(dep) <==> named_below(g, listed, i as int, text::views(tried@), dep));
                    if named_below(g, listed, i as int, text::views(tried@), dep) {
                        let k = choose|k: int| 0 <= k < i && #[trigger] g.names_dependency(listed[k], dep);
                        assert(g.names_dependency(listed[k], dep));
                    }
                }
            }
        } else {
            proof {
                assert forall|dep: Seq<char>| named_below(g, listed, i as int, text::views(tried@), dep) <==> named_below(g, listed, i + 1, text::views(tried@), dep) by {
                    if named_below(g, listed, i + 1, text::views(tried@), dep) {
                        let k = choose|k: int| 0 <= k < i + 1 && #[trigger] g.names_dependency(listed[k], dep);
                        assert(k < i);
                    }
                    if named_below(g, listed, i as int, text::views(tried@), dep) {
                        let k = choose|k: int| 0 <= k < i && #[trigger] g.names_dependency(listed[k], dep);
                        assert(g.names_dependency(listed[k], dep));
                    }
                }
            }
        }
        i += 1;
    }
    proof {
        assert forall|dep: Seq<char>| #[trigger] text::views(out@).contains(dep) <==> still_wanted(known@, loaded@, text::views(tried@), target@, dep) by {
            if named_below(g, listed, order@.len() as int, text::views(tried@), dep) {
                let k = choose|k: int| 0 <= k < order@.len() && #[trigger] g.names_dependency(listed[k], dep);
                assert(at_or_below(g, target@, listed[k]));
            }
            if still_wanted(known@, loaded@, text::views(tried@), target@, dep) {
                let n = choose|n: Seq<char>| #[trigger] at_or_below(g, target@, n) && g.names_dependency(n, dep);
                assert(listed.contains(n));
                let k = choose|k: int| 0 <= k < listed.len() && listed[k] == n;
                assert(g.names_dependency(listed[k], dep));
            }
        }
    }
    out
}

/// Whether one of the first `n` listed units names `dep`, which cannot be used
/// yet and was not tried.
spec fn named_below(g: Graph, listed: Seq<Seq<char>>, n: int, tried: Seq<Seq<char>>, dep: Seq<char>) -> bool {
    !g.has(dep) && !tried.contains(dep) && exists|k: int| 0 <= k < n && #[trigger] g.names_dependency(listed[k], dep)
}

/// A unit names a dependency in one of its three lists.
proof fn lemma_names_dependency(g: Graph, name: Seq<char>, dep: Seq<char>)
    requires
        g.has(name),
    ensures
        g.names_dependency(name, dep) <==> text::views(g.units[name].requires@).contains(dep) || text::views(g.units[name].wants@).contains(dep)
            || text::views(g.units[name].after@).contains(dep),
{
    let a = text::views(g.units[name].requires@);
    let b = text::views(g.units[name].wants@);
    let c = text::views(g.units[name].after@);
    let edges = g.edges(name);
    if a.contains(dep) {
        let k = choose|k: int| 0 <= k < a.len() && a[k] == dep;
        assert(edges[k].dep == dep);
    }
    if b.contains(dep) {
        let k = choose|k: int| 0 <= k < b.len() && b[k] == dep;
        assert(edges[a.len() + k].dep == dep);
    }
    if c.contains(dep) {
        let k = choose|k: int| 0 <= k < c.len() && c[k] == dep;
        assert(edges[a.len() + b.len() + k].dep == dep);
    }
    if g.names_dependency(name, dep) {
        let i = choose|i: int| 0 <= i < edges.len() && (#[trigger] edges[i]).dep == dep;
        if i < a.len() {
            assert(a[i] == dep);
        } else if i < a.len() + b.len() {
            assert(b[i - a.len()] == dep);
        } else {
            assert(c[i - a.len() - b.len()] == dep);
        }
    }
}

/// Append those of `deps` that cannot be used, were not tried and are not
/// there yet.
fn collect_missing(known: &NameMap<DepUnit<'_>>, loaded: &NameMap<LoadedUnit>, tried: &Vec<String>, deps: &Vec<String>, out: &mut Vec<String>)
    requires
        known.wf(),
        loaded.wf(),
        text::views(old(out)@).no_duplicates(),
    ensures
        text::views(final(out)@).no_duplicates(),
        forall|dep: Seq<char>| #[trigger] text::views(final(out)@).contains(dep) <==> text::views(old(out)@).contains(dep)
            || (text::views(deps@).contains(dep) && !graph(known@, loaded@, true).has(dep) && !text::views(tried@).contains(dep)),
{
    let ghost g = graph(known@, loaded@, true);
    let ghost before = text::views(out@);
    let ghost names = text::views(deps@);
    assert(names.take(0) =~= Seq::<Seq<char>>::empty());
    let mut i: usize = 0;
    while i < deps.len()
        invariant
            known.wf(),
            loaded.wf(),
            g == graph(known@, loaded@, true),
            names == text::views(deps@),
            i <= deps@.len(),
            text::views(out@).no_duplicates(),
            forall|dep: Seq<char>| #[trigger] text::views(out@).contains(dep) <==> before.contains(dep)
                || (names.take(i as int).contains(dep) && !g.has(dep) && !text::views(tried@).contains(dep)),
        decreases deps@.len() - i,
    {
        let dep = deps[i].as_str();
        let ghost prev = text::views(out@);
        let present = section_of(known, loaded, dep).is_some();
        assert(present == g.has(dep@));
        if !present && !text::contains_name(tried, dep) && !text::contains_name(out, dep) {
            out.push(deps[i].clone());
            assert(text::views(out@) =~= prev.push(dep@));
        }
        proof {
            assert(names.take(i + 1) =~= names.take(i as int).push(dep@));
            assert forall|x: Seq<char>| #[trigger] text::views(out@).contains(x) <==> before.contains(x)
                || (names.take(i + 1).contains(x) && !g.has(x) && !text::views(tried@).contains(x)) by {
                lemma_push_contains(names.take(i as int), dep@, x);
                lemma_push_contains(prev, dep@, x);
                assert(prev.contains(x) <==> before.contains(x) || (names.take(i as int).contains(x) && !g.has(x) && !text::views(tried@).contains(x)));
            }
        }
        i += 1;
    }
    assert(names.take(i as int) =~= names);
}

proof fn lemma_push_contains<A>(s: Seq<A>, a: A, x: A)
    ensures
        s.push(a).contains(x) <==> s.contains(x) || x == a,
{
    let more = s.push(a);
    if s.contains(x) {
        let k = choose|k: int| 0 <= k < s.len() && s[k] == x;
        assert(more[k] == x);
    }
    if x == a {
        assert(more[s.len() as int] == x);
    }
}

/// A complete order holds everything that its units depend on in the end.
proof fn lemma_closed(g: Graph, order: Seq<Seq<char>>, path: Seq<Seq<char>>, a: Seq<char>, b: Seq<char>)
    requires
        order_ok(g, Set::empty(), order),
        order.contains(a),
        g.is_path(path, a, b),
    ensures
        order.contains(b),
    decreases path.len(),
{
    assert(g.step(path, 0));
    let i = choose|i: int| 0 <= i < order.len() && order[i] == a;
    assert(g.depends(order[i], path[1]));
    assert(order.contains(path[1]));
    if path.len() > 2 {
        let rest = path.drop_first();
        assert forall|k: int| 0 <= k < rest.len() - 1 implies #[trigger] g.step(rest, k) by {
            assert(g.step(path, k + 1));
            assert(rest[k] == path[k + 1] && rest[k + 1] == path[k + 2]);
        }
        lemma_closed(g, order, rest, path[1], b);
    }
}

/// What a resolution from the start guarantees.
proof fn lemma_closure(g: Graph, target: Seq<char>)
    requires
        g.units.dom().finite(),
    ensures
        visited_ok(g, Set::empty(), Seq::empty(), target, visit(g, Set::empty(), Seq::empty(), target)),
        visit(g, Set::empty(), Seq::empty(), target) matches Ok(order) ==> forall|n: Seq<char>| #[trigger] at_or_below(g, target, n) ==> order.contains(n),
{
    lemma_visit(g, Set::empty(), Seq::empty(), target);
    match visit(g, Set::empty(), Seq::empty(), target) {
        Ok(order) => {
            assert forall|n: Seq<char>| #[trigger] at_or_below(g, target, n) implies order.contains(n) by {
                if n != target {
                    let path = choose|path: Seq<Seq<char>>| g.is_path(path, target, n);
                    lemma_closed(g, order, path, target, n);
                }
            }
        },
        Err(missing) => {},
    }
}

proof fn lemma_lenient(g: Graph, target: Seq<char>)
    requires
        g.units.dom().finite(),
        g.lenient,
    ensures
        visit(g, Set::empty(), Seq::empty(), target) is Ok,
{
    lemma_visit(g, Set::empty(), Seq::empty(), target);
    match visit(g, Set::empty(), Seq::empty(), target) {
        Ok(order) => {},
        Err(missing) => {
            let n = choose|n: Seq<char>| #[trigger] at_or_below(g, target, n) && g.must_have(n, missing);
            let e = choose|e: int| 0 <= e < g.edges(n).len() && (#[trigger] g.edges(n)[e]).dep == missing && g.edges(n)[e].required;
            assert(!g.edges(n)[e].required);
        },
    }
}

/// The target comes last, and no unit is started twice.
pub proof fn law_target_comes_last(known: Map<Seq<char>, DepUnit<'_>>, loaded: Map<Seq<char>, LoadedUnit>, target: Seq<char>)
    requires
        known.dom().finite(),
        loaded.dom().finite(),
    ensures
        start_order(known, loaded, target, false) matches Ok(order) ==> order.len() > 0 && order.last() == target && order.no_duplicates(),
{
    lemma_graph_finite(known, loaded);
    lemma_closure(graph(known, loaded, false), target);
}

proof fn lemma_graph_finite(known: Map<Seq<char>, DepUnit<'_>>, loaded: Map<Seq<char>, LoadedUnit>)
    requires
        known.dom().finite(),
        loaded.dom().finite(),
    ensures
        forall|lenient: bool| #[trigger] graph(known, loaded, lenient).units.dom().finite(),
{
    assert(known_sections(known).dom() =~= known.dom());
    assert(loaded_sections(loaded).dom() =~= loaded.dom());
    assert forall|lenient: bool| #[trigger] graph(known, loaded, lenient).units.dom().finite() by {
        assert(graph(known, loaded, lenient).units.dom() =~= loaded.dom().union(known.dom()));
    }
}

/// Every unit comes after each unit that it depends on and that is there,
/// unless the two are on a dependency cycle: that one edge is dropped. A
/// dependency that is there is always part of the order.
pub proof fn law_dependencies_come_before_dependents(known: Map<Seq<char>, DepUnit<'_>>, loaded: Map<Seq<char>, LoadedUnit>, target: Seq<char>, i: int, dep: Seq<char>)
    requires
        known.dom().finite(),
        loaded.dom().finite(),
        known.dom().contains(target),
    ensures
        start_order(known, loaded, target, false) matches Ok(order) ==> (0 <= i < order.len() && graph(known, loaded, false).depends(order[i], dep)
            ==> order.contains(dep) && (order.take(i).contains(dep) || graph(known, loaded, false).reaches(dep, order[i]))),
{
    lemma_graph_finite(known, loaded);
    lemma_closure(graph(known, loaded, false), target);
}

/// Exactly the target and what it depends on in the end is started.
pub proof fn law_exactly_the_closure_is_started(known: Map<Seq<char>, DepUnit<'_>>, loaded: Map<Seq<char>, LoadedUnit>, target: Seq<char>, name: Seq<char>)
    requires
        known.dom().finite(),
        loaded.dom().finite(),
        known.dom().contains(target),
    ensures
        start_order(known, loaded, target, false) matches Ok(order) ==> (order.contains(name) <==> at_or_below(graph(known, loaded, false), target, name)),
{
    lemma_graph_finite(known, loaded);
    let g = graph(known, loaded, false);
    lemma_closure(g, target);
    match start_order(known, loaded, target, false) {
        Ok(order) => {
            if order.contains(name) {
                let i = choose|i: int| 0 <= i < order.len() && order[i] == name;
                assert(at_or_below(g, target, order[i]));
            }
        },
        Err(missing) => {},
    }
}

/// Resolution fails exactly when a unit in the closure requires something that
/// cannot be had; missing `Wants=` and `After=` dependencies never fail it.
pub proof fn law_only_missing_requirements_fail(known: Map<Seq<char>, DepUnit<'_>>, loaded: Map<Seq<char>, LoadedUnit>, target: Seq<char>)
    requires
        known.dom().finite(),
        loaded.dom().finite(),
        known.dom().contains(target),
    ensures
        start_order(known, loaded, target, false) is Err <==> exists|missing: Seq<char>| lacks(graph(known, loaded, false), target, missing),
        start_order(known, loaded, target, false) matches Err(missing) ==> lacks(graph(known, loaded, false), target, missing),
{
    lemma_graph_finite(known, loaded);
    let g = graph(known, loaded, false);
    lemma_closure(g, target);
    match start_order(known, loaded, target, false) {
        Ok(order) => {
            assert forall|missing: Seq<char>| !lacks(g, target, missing) by {
                if lacks(g, target, missing) {
                    let n = choose|n: Seq<char>| #[trigger] at_or_below(g, target, n) && g.must_have(n, missing);
                    assert(order.contains(n));
                    let i = choose|i: int| 0 <= i < order.len() && order[i] == n;
                    assert(g.must_have(order[i], missing));
                }
            }
        },
        Err(missing) => {
            assert(lacks(g, target, missing));
        },
    }
}

/// Whether a unit is registered or was loaded.
pub open spec fn available(known: Map<Seq<char>, DepUnit<'_>>, loaded: Map<Seq<char>, LoadedUnit>, name: Seq<char>) -> bool {
    known.dom().contains(name) || loaded.dom().contains(name)
}

/// The section of a unit that is available: the registry's where it holds one.
pub open spec fn available_section(known: Map<Seq<char>, DepUnit<'_>>, loaded: Map<Seq<char>, LoadedUnit>, name: Seq<char>) -> UnitSection {
    if known.dom().contains(name) {
        known[name].loaded.section()
    } else {
        loaded[name].section()
    }
}

/// Whether an available unit has another in its `Requires=`.
pub open spec fn requires_unit(known: Map<Seq<char>, DepUnit<'_>>, loaded: Map<Seq<char>, LoadedUnit>, a: Seq<char>, b: Seq<char>) -> bool {
    available(known, loaded, a) && text::views(available_section(known, loaded, a).requires@).contains(b)
}

/// Whether an available unit has another in its `Requires=`, `Wants=` or
/// `After=`, and that one is available too.
pub open spec fn pulls_in(known: Map<Seq<char>, DepUnit<'_>>, loaded: Map<Seq<char>, LoadedUnit>, a: Seq<char>, b: Seq<char>) -> bool {
    &&& available(known, loaded, a)
    &&& available(known, loaded, b)
    &&& {
        ||| text::views(available_section(known, loaded, a).requires@).contains(b)
        ||| text::views(available_section(known, loaded, a).wants@).contains(b)
        ||| text::views(available_section(known, loaded, a).after@).contains(b)
    }
}

/// Whether an available unit has a name in its `Requires=`, `Wants=` or
/// `After=`.
pub open spec fn asks_for(known: Map<Seq<char>, DepUnit<'_>>, loaded: Map<Seq<char>, LoadedUnit>, a: Seq<char>, b: Seq<char>) -> bool {
    &&& available(known, loaded, a)
    &&& {
        ||| text::views(available_section(known, loaded, a).requires@).contains(b)
        ||| text::views(available_section(known, loaded, a).wants@).contains(b)
        ||| text::views(available_section(known, loaded, a).after@).contains(b)
    }
}

/// Whether a set of names holds all that its units pull in.
pub open spec fn is_closed(known: Map<Seq<char>, DepUnit<'_>>, loaded: Map<Seq<char>, LoadedUnit>, names: Set<Seq<char>>) -> bool {
    forall|a: Seq<char>, b: Seq<char>| names.contains(a) && #[trigger] pulls_in(known, loaded, a, b) ==> names.contains(b)
}

/// A dependency must be there exactly where it stands in the `Requires=` of a
/// unit, and is followed exactly where it stands in one of the three lists and
/// is available.
pub proof fn law_only_requires_must_be_there(known: Map<Seq<char>, DepUnit<'_>>, loaded: Map<Seq<char>, LoadedUnit>, a: Seq<char>, b: Seq<char>)
    ensures
        graph(known, loaded, false).must_have(a, b) <==> requires_unit(known, loaded, a, b),
        graph(known, loaded, false).depends(a, b) <==> pulls_in(known, loaded, a, b),
        graph(known, loaded, false).names_dependency(a, b) <==> asks_for(known, loaded, a, b),
        !graph(known, loaded, true).must_have(a, b),
        graph(known, loaded, true).names_dependency(a, b) <==> asks_for(known, loaded, a, b),
        graph(known, loaded, true).depends(a, b) <==> pulls_in(known, loaded, a, b),
{
    let g = graph(known, loaded, false);
    let h = graph(known, loaded, true);
    assert(known_sections(known).dom() =~= known.dom());
    assert(loaded_sections(loaded).dom() =~= loaded.dom());
    if g.has(a) {
        lemma_names_dependency(g, a, b);
        lemma_names_dependency(h, a, b);
        let first = text::views(g.units[a].requires@);
        if first.contains(b) {
            let k = choose|k: int| 0 <= k < first.len() && first[k] == b;
            assert(g.edges(a)[k].dep == b && g.edges(a)[k].required);
        }
        if g.must_have(a, b) {
            let e = choose|e: int| 0 <= e < g.edges(a).len() && (#[trigger] g.edges(a)[e]).dep == b && g.edges(a)[e].required;
            assert(e < first.len());
            assert(first[e] == b);
        }
    }
}

proof fn lemma_path_stays(known: Map<Seq<char>, DepUnit<'_>>, loaded: Map<Seq<char>, LoadedUnit>, names: Set<Seq<char>>, path: Seq<Seq<char>>, a: Seq<char>, b: Seq<char>)
    requires
        is_closed(known, loaded, names),
        names.contains(a),
        graph(known, loaded, false).is_path(path, a, b),
    ensures
        names.contains(b),
    decreases path.len(),
{
    let g = graph(known, loaded, false);
    assert(g.step(path, 0));
    law_only_requires_must_be_there(known, loaded, a, path[1]);
    assert(names.contains(path[1]));
    if path.len() > 2 {
        let rest = path.drop_first();
        assert forall|k: int| 0 <= k < rest.len() - 1 implies #[trigger] g.step(rest, k) by {
            assert(g.step(path, k + 1));
            assert(rest[k] == path[k + 1] && rest[k + 1] == path[k + 2]);
        }
        lemma_path_stays(known, loaded, names, rest, path[1], b);
    }
}

proof fn lemma_below_stays(known: Map<Seq<char>, DepUnit<'_>>, loaded: Map<Seq<char>, LoadedUnit>, names: Set<Seq<char>>, top: Seq<char>, n: Seq<char>)
    requires
        is_closed(known, loaded, names),
        names.contains(top),
        at_or_below(graph(known, loaded, false), top, n),
    ensures
        names.contains(n),
{
    if n != top {
        let path = choose|path: Seq<Seq<char>>| graph(known, loaded, false).is_path(path, top, n);
        lemma_path_stays(known, loaded, names, path, top, n);
    }
}

/// A start succeeds wherever all that stands in the `Requires=` of the units
/// that it pulls in is available, whatever their `Wants=` and `After=` name.
pub proof fn law_optional_dependencies_never_fail_a_start(known: Map<Seq<char>, DepUnit<'_>>, loaded: Map<Seq<char>, LoadedUnit>, target: Seq<char>, names: Set<Seq<char>>)
    requires
        known.dom().finite(),
        loaded.dom().finite(),
        names.contains(target),
        is_closed(known, loaded, names),
        forall|a: Seq<char>, b: Seq<char>| names.contains(a) && #[trigger] requires_unit(known, loaded, a, b) ==> available(known, loaded, b),
    ensures
        start_order(known, loaded, target, false) is Ok,
{
    if known.dom().contains(target) {
        let g = graph(known, loaded, false);
        law_only_missing_requirements_fail(known, loaded, target);
        if start_order(known, loaded, target, false) is Err {
            let missing = start_order(known, loaded, target, false)->Err_0;
            let n = choose|n: Seq<char>| #[trigger] at_or_below(g, target, n) && g.must_have(n, missing);
            lemma_below_stays(known, loaded, names, target, n);
            law_only_requires_must_be_there(known, loaded, n, missing);
            assert(known_sections(known).dom() =~= known.dom());
            assert(loaded_sections(loaded).dom() =~= loaded.dom());
        }
    }
}

/// A start that fails names what is missing: it is not available, and every
/// set that holds the target and all that its units pull in holds a unit with
/// it in `Requires=`. A start that succeeds has all that its units require.
pub proof fn law_a_failed_start_names_the_missing_requirement(known: Map<Seq<char>, DepUnit<'_>>, loaded: Map<Seq<char>, LoadedUnit>, target: Seq<char>)
    requires
        known.dom().finite(),
        loaded.dom().finite(),
    ensures
        match start_order(known, loaded, target, false) {
            Ok(order) => known.dom().contains(target) ==> forall|a: Seq<char>, b: Seq<char>|
                order.contains(a) && #[trigger] requires_unit(known, loaded, a, b) ==> available(known, loaded, b) && order.contains(b),
            Err(missing) => {
                &&& known.dom().contains(target)
                &&& !available(known, loaded, missing)
                &&& forall|names: Set<Seq<char>>| names.contains(target) && #[trigger] is_closed(known, loaded, names) ==> exists|a: Seq<char>|
                    names.contains(a) && #[trigger] requires_unit(known, loaded, a, missing)
            },
        },
{
    if known.dom().contains(target) {
        let g = graph(known, loaded, false);
        lemma_graph_finite(known, loaded);
        lemma_closure(g, target);
        assert(known_sections(known).dom() =~= known.dom());
        assert(loaded_sections(loaded).dom() =~= loaded.dom());
        match start_order(known, loaded, target, false) {
            Ok(order) => {
                assert forall|a: Seq<char>, b: Seq<char>| order.contains(a) && #[trigger] requires_unit(known, loaded, a, b) implies available(known, loaded, b)
                    && order.contains(b) by {
                    law_only_requires_must_be_there(known, loaded, a, b);
                    let i = choose|i: int| 0 <= i < order.len() && order[i] == a;
                    assert(g.must_have(order[i], b));
                    assert(g.depends(order[i], b));
                }
            },
            Err(missing) => {
                let n = choose|n: Seq<char>| #[trigger] at_or_below(g, target, n) && g.must_have(n, missing);
                law_only_requires_must_be_there(known, loaded, n, missing);
                assert forall|names: Set<Seq<char>>| names.contains(target) && #[trigger] is_closed(known, loaded, names) implies exists|a: Seq<char>|
                    names.contains(a) && #[trigger] requires_unit(known, loaded, a, missing) by {
                    lemma_below_stays(known, loaded, names, target, n);
                }
            },
        }
    }
}

/// The units of a start are the least set that holds the target and all that
/// its units pull in. The target comes last, no unit comes twice, and a unit
/// comes before those that pull it in, unless it pulls them in too in the end:
/// then every closed set that holds the one holds the other.
pub proof fn law_a_start_is_the_least_closed_order(known: Map<Seq<char>, DepUnit<'_>>, loaded: Map<Seq<char>, LoadedUnit>, target: Seq<char>)
    requires
        known.dom().finite(),
        loaded.dom().finite(),
        known.dom().contains(target),
    ensures
        start_order(known, loaded, target, false) matches Ok(order) ==> {
            &&& order.len() > 0
            &&& order.last() == target
            &&& order.no_duplicates()
            &&& is_closed(known, loaded, order.to_set())
            &&& forall|names: Set<Seq<char>>, i: int|
                names.contains(target) && is_closed(known, loaded, names) && 0 <= i < order.len() ==> #[trigger] names.contains(#[trigger] order[i])
            &&& forall|names: Set<Seq<char>>, i: int, j: int|
                0 <= i <= j < order.len() && #[trigger] pulls_in(known, loaded, order[i], order[j]) && names.contains(order[j])
                    && #[trigger] is_closed(known, loaded, names) ==> names.contains(order[i])
        },
{
    let g = graph(known, loaded, false);
    lemma_graph_finite(known, loaded);
    lemma_closure(g, target);
    match start_order(known, loaded, target, false) {
        Ok(order) => {
            assert forall|a: Seq<char>, b: Seq<char>| order.to_set().contains(a) && #[trigger] pulls_in(known, loaded, a, b) implies order.to_set().contains(b) by {
                law_only_requires_must_be_there(known, loaded, a, b);
                let i = choose|i: int| 0 <= i < order.len() && order[i] == a;
                assert(g.depends(order[i], b));
            }
            assert forall|names: Set<Seq<char>>, i: int|
                names.contains(target) && is_closed(known, loaded, names) && 0 <= i < order.len() implies #[trigger] names.contains(#[trigger] order[i]) by {
                assert(at_or_below(g, target, order[i]));
                lemma_below_stays(known, loaded, names, target, order[i]);
            }
            assert forall|names: Set<Seq<char>>, i: int, j: int|
                0 <= i <= j < order.len() && #[trigger] pulls_in(known, loaded, order[i], order[j]) && names.contains(order[j])
                    && #[trigger] is_closed(known, loaded, names) implies names.contains(order[i]) by {
                law_only_requires_must_be_there(known, loaded, order[i], order[j]);
                assert(g.depends(order[i], order[j]));
                assert(!order.take(i).contains(order[j])) by {
                    if order.take(i).contains(order[j]) {
                        let k = choose|k: int| 0 <= k < order.take(i).len() && order.take(i)[k] == order[j];
                        assert(order[k] == order[j]);
                    }
                }
                assert(g.reaches(order[j], order[i]));
                lemma_below_stays(known, loaded, names, order[j], order[i]);
            }
        },
        Err(missing) => {},
    }
}

/// A target that is not registered is started alone.
pub proof fn law_an_unregistered_target_starts_alone(known: Map<Seq<char>, DepUnit<'_>>, loaded: Map<Seq<char>, LoadedUnit>, target: Seq<char>)
    requires
        !known.dom().contains(target),
    ensures
        start_order(known, loaded, target, false) == Ok::<Seq<Seq<char>>, Seq<char>>(seq![target]),
{
}

proof fn lemma_same_paths(known: Map<Seq<char>, DepUnit<'_>>, loaded: Map<Seq<char>, LoadedUnit>, a: Seq<char>, b: Seq<char>)
    ensures
        graph(known, loaded, true).reaches(a, b) <==> graph(known, loaded, false).reaches(a, b),
{
    let g = graph(known, loaded, false);
    let h = graph(known, loaded, true);
    assert forall|path: Seq<Seq<char>>| g.is_path(path, a, b) <==> h.is_path(path, a, b) by {
        assert forall|i: int| #[trigger] g.step(path, i) <==> #[trigger] h.step(path, i) by {
            law_only_requires_must_be_there(known, loaded, path[i], path[i + 1]);
        }
        if g.is_path(path, a, b) {
            assert forall|i: int| 0 <= i < path.len() - 1 implies #[trigger] h.step(path, i) by {
                assert(g.step(path, i));
            }
        }
        if h.is_path(path, a, b) {
            assert forall|i: int| 0 <= i < path.len() - 1 implies #[trigger] g.step(path, i) by {
                assert(h.step(path, i));
            }
        }
    }
    if g.reaches(a, b) {
        let path = choose|path: Seq<Seq<char>>| g.is_path(path, a, b);
        assert(h.is_path(path, a, b));
    }
    if h.reaches(a, b) {
        let path = choose|path: Seq<Seq<char>>| h.is_path(path, a, b);
        assert(g.is_path(path, a, b));
    }
}

/// What is to be loaded before a start: exactly the names that are not
/// available, were not tried, and that every set which holds the target and
/// all that its units pull in asks for.
pub proof fn law_all_that_is_asked_for_is_loaded(known: Map<Seq<char>, DepUnit<'_>>, loaded: Map<Seq<char>, LoadedUnit>, tried: Seq<Seq<char>>, target: Seq<char>, dep: Seq<char>)
    requires
        known.dom().contains(target),
    ensures
        still_wanted(known, loaded, tried, target, dep) <==> {
            &&& !available(known, loaded, dep)
            &&& !tried.contains(dep)
            &&& forall|names: Set<Seq<char>>| names.contains(target) && #[trigger] is_closed(known, loaded, names) ==> exists|a: Seq<char>|
                names.contains(a) && #[trigger] asks_for(known, loaded, a, dep)
        },
{
    let g = graph(known, loaded, false);
    let h = graph(known, loaded, true);
    assert(known_sections(known).dom() =~= known.dom());
    assert(loaded_sections(loaded).dom() =~= loaded.dom());
    let all = Set::new(|n: Seq<char>| at_or_below(g, target, n));
    assert(is_closed(known, loaded, all)) by {
        assert forall|a: Seq<char>, b: Seq<char>| all.contains(a) && #[trigger] pulls_in(known, loaded, a, b) implies all.contains(b) by {
            law_only_requires_must_be_there(known, loaded, a, b);
            if a == target {
                lemma_one_step(g, a, b);
            } else {
                lemma_extend(g, target, a, b);
            }
        }
    }
    if still_wanted(known, loaded, tried, target, dep) {
        let n = choose|n: Seq<char>| #[trigger] at_or_below(h, target, n) && h.names_dependency(n, dep);
        law_only_requires_must_be_there(known, loaded, n, dep);
        lemma_same_paths(known, loaded, target, n);
        assert(at_or_below(g, target, n));
        assert forall|names: Set<Seq<char>>| names.contains(target) && #[trigger] is_closed(known, loaded, names) implies exists|a: Seq<char>|
            names.contains(a) && #[trigger] asks_for(known, loaded, a, dep) by {
            lemma_below_stays(known, loaded, names, target, n);
        }
    }
    if forall|names: Set<Seq<char>>| names.contains(target) && #[trigger] is_closed(known, loaded, names) ==> exists|a: Seq<char>|
        names.contains(a) && #[trigger] asks_for(known, loaded, a, dep) {
        assert(all.contains(target));
        let a = choose|a: Seq<char>| all.contains(a) && #[trigger] asks_for(known, loaded, a, dep);
        law_only_requires_must_be_there(known, loaded, a, dep);
        lemma_same_paths(known, loaded, target, a);
        assert(at_or_below(h, target, a));
    }
}

} // verus!
