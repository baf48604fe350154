//! The inheritance part of the legalized IR: each entity with its resolved
//! supertypes and the subtypes that name it.
use crate::ast::{EntityDecl, SchemaDecl, TypeDecl};
use crate::typeref::{
    attribute_type, attribute_views, attrs_legal, fault_is, legalize_attributes, whole_type_spec, AttrFault,
    Attribute, TypeRef, TypeRefView,
};
use crate::namespace::{text_of, Namespace, PathView, Scope, ScopeType, SemanticError, StepView};
use vstd::prelude::*;
use vstd::set_lib::{lemma_int_range, lemma_len_subset, set_int_range};

verus! {

/// An entity of a legalized schema. Supertypes and subtypes are positions in the
/// schema's entity list.
#[derive(Debug, PartialEq, Eq)]
pub struct Entity {
    pub name: String,
    /// The entities of its `SUBTYPE OF` list, in order, each once.
    pub supertypes: Vec<usize>,
    /// The entities whose `SUBTYPE OF` list names it, in order of declaration.
    pub subtypes: Vec<usize>,
    /// Its own explicit attributes, in order, with their types resolved.
    pub attributes: Vec<Attribute>,
    /// A reference to each supertype, in the order of `supertypes`.
    pub supertype_refs: Vec<SupertypeRef>,
}

/// A reference from an entity to one of its supertypes.
#[derive(Debug, PartialEq, Eq)]
pub struct SupertypeRef {
    /// The supertype's position among the schema's entities.
    pub entity: usize,
    /// Whether the referenced entity is a supertype: always so for a parent.
    pub is_supertype: bool,
    /// The supertype's own supertypes, in order.
    pub supertypes: Vec<usize>,
}

/// The references of entity `k` point at its supertypes, flagged, each with the
/// supertype's own supertypes.
pub open spec fn refs_cached(ents: Seq<EntityDecl>, e: Entity) -> bool {
    &&& e.supertype_refs@.len() == e.supertypes@.len()
    &&& forall|x: int| 0 <= x < e.supertype_refs@.len() ==> {
        let r = #[trigger] e.supertype_refs@[x];
        &&& r.entity == e.supertypes@[x]
        &&& r.is_supertype
        &&& ints(r.supertypes@) == parents(ents, ents[r.entity as int].subtype_of@)
    }
}

/// A legalized schema.
#[derive(Debug, PartialEq, Eq)]
pub struct Schema {
    pub name: String,
    pub entities: Vec<Entity>,
    /// The schema's `TYPE` declarations, in source order, each with its underlying
    /// type resolved.
    pub types: Vec<TypeDef>,
}

/// A legalized `TYPE` declaration.
#[derive(Debug, PartialEq, Eq)]
pub struct TypeDef {
    pub name: String,
    pub underlying: TypeRef,
}

/// The scope inside the `TYPE` declaration `d`.
pub open spec fn type_scope(here: Seq<StepView>, d: TypeDecl) -> Seq<StepView> {
    here.push((ScopeType::Type, d.name@))
}

/// The underlying type of declaration `k` reads and resolves.
pub open spec fn type_ok(types: Seq<TypeDecl>, k: int, paths: Seq<PathView>, here: Seq<StepView>) -> bool {
    whole_type_spec(types[k].underlying@, paths, type_scope(here, types[k])) is Ok
}

/// `out` holds the declarations `types`, in order, each with its resolved type.
pub open spec fn legal_types(types: Seq<TypeDecl>, out: Seq<TypeDef>, paths: Seq<PathView>, here: Seq<StepView>) -> bool {
    &&& out.len() == types.len()
    &&& forall|k: int| 0 <= k < out.len() ==> type_def_is(types[k], #[trigger] out[k], paths, here)
}

/// `out` is declaration `d` with its underlying type resolved.
pub open spec fn type_def_is(d: TypeDecl, out: TypeDef, paths: Seq<PathView>, here: Seq<StepView>) -> bool {
    out.name@ == d.name@ && match whole_type_spec(d.underlying@, paths, type_scope(here, d)) {
        Ok((_, v)) => v == out.underlying@,
        Err(_) => false,
    }
}

/// Every entity legalizes and `TYPE` declaration `k` is the first that fails, with
/// error `x`. Entities come before types, as the schema lists them.
pub open spec fn type_fails_first(ents: Seq<EntityDecl>, types: Seq<TypeDecl>, k: int, paths: Seq<PathView>, here: Seq<StepView>, x: SemanticError) -> bool {
    &&& 0 <= k < types.len()
    &&& forall|j: int| 0 <= j < ents.len() ==> #[trigger] entity_ok(ents, j, paths, here)
    &&& forall|j: int| 0 <= j < k ==> #[trigger] type_ok(types, j, paths, here)
    &&& whole_type_spec(types[k].underlying@, paths, type_scope(here, types[k])) matches Err(f) && fault_is(
        f,
        x,
        type_scope(here, types[k]),
    )
}

/// The first entity of `ents` named `name`.
pub open spec fn entity_position(ents: Seq<EntityDecl>, name: Seq<char>) -> Option<int>
    decreases ents.len(),
{
    if ents.len() == 0 {
        None
    } else {
        match entity_position(ents.drop_last(), name) {
            Some(m) => Some(m),
            None => if ents.last().name@ == name {
                Some(ents.len() - 1)
            } else {
                None
            },
        }
    }
}

/// Every name of `names` is an entity of `ents`.
pub open spec fn names_resolve(ents: Seq<EntityDecl>, names: Seq<String>) -> bool {
    forall|i: int| 0 <= i < names.len() ==> entity_position(ents, #[trigger] names[i]@) is Some
}

/// `names[i]` is the first of `names` that is no entity of `ents`.
pub open spec fn first_unresolved_at(ents: Seq<EntityDecl>, names: Seq<String>, i: int) -> bool {
    &&& 0 <= i < names.len()
    &&& entity_position(ents, names[i]@) is None
    &&& forall|j: int| 0 <= j < i ==> entity_position(ents, #[trigger] names[j]@) is Some
}

/// The positions that `names` resolve to, first occurrences only.
pub open spec fn parents(ents: Seq<EntityDecl>, names: Seq<String>) -> Seq<int>
    decreases names.len(),
{
    if names.len() == 0 {
        Seq::empty()
    } else {
        let acc = parents(ents, names.drop_last());
        let m = entity_position(ents, names.last()@).unwrap();
        if acc.contains(m) {
            acc
        } else {
            acc.push(m)
        }
    }
}

pub open spec fn name_views(v: Seq<String>) -> Seq<Seq<char>> {
    v.map_values(|s: String| s@)
}

pub open spec fn ints(v: Seq<usize>) -> Seq<int> {
    v.map_values(|x: usize| x as int)
}

/// Every entry is a position in a list of `n` entities.
pub open spec fn refers_within(v: Seq<int>, n: int) -> bool {
    forall|i: int| 0 <= i < v.len() ==> 0 <= #[trigger] v[i] < n
}

proof fn lemma_position_range(ents: Seq<EntityDecl>, name: Seq<char>)
    ensures
        entity_position(ents, name) matches Some(m) ==> 0 <= m < ents.len(),
    decreases ents.len(),
{
    if ents.len() > 0 {
        lemma_position_range(ents.drop_last(), name);
    }
}

proof fn lemma_parents_range(ents: Seq<EntityDecl>, names: Seq<String>)
    requires
        names_resolve(ents, names),
    ensures
        refers_within(parents(ents, names), ents.len() as int),
    decreases names.len(),
{
    if names.len() > 0 {
        let shorter = names.drop_last();
        assert forall|i: int| 0 <= i < shorter.len() implies entity_position(ents, #[trigger] shorter[i]@) is Some by {
            assert(shorter[i] == names[i]);
        }
        lemma_parents_range(ents, shorter);
        assert(entity_position(ents, names[names.len() - 1]@) is Some);
        lemma_position_range(ents, names.last()@);
    }
}

pub open spec fn strictly_increasing(v: Seq<int>) -> bool {
    forall|a: int, b: int| 0 <= a < b < v.len() ==> v[a] < v[b]
}

/// What legalization makes of the inheritance of the entities `ents`.
pub open spec fn legal_inheritance(ents: Seq<EntityDecl>, out: Seq<Entity>) -> bool {
    &&& out.len() == ents.len()
    &&& forall|k: int| 0 <= k < out.len() ==> (#[trigger] out[k]).name@ == ents[k].name@
    &&& forall|k: int| 0 <= k < out.len() ==> ints((#[trigger] out[k]).supertypes@) == parents(ents, ents[k].subtype_of@)
    &&& forall|m: int| 0 <= m < out.len() ==> strictly_increasing(ints((#[trigger] out[m]).subtypes@))
    &&& forall|m: int| 0 <= m < out.len() ==> refers_within(ints((#[trigger] out[m]).subtypes@), out.len() as int)
    &&& forall|m: int| 0 <= m < out.len() ==> refers_within(ints((#[trigger] out[m]).supertypes@), out.len() as int)
    &&& forall|m: int| 0 <= m < out.len() ==> refs_cached(ents, #[trigger] out[m])
    &&& forall|m: int, k: int|
        #![trigger ints(out[m].subtypes@).contains(k)]
        #![trigger ints(out[k].supertypes@).contains(m)]
        0 <= m < out.len() && 0 <= k < out.len() ==> (ints(out[m].subtypes@).contains(k) <==> ints(
            out[k].supertypes@,
        ).contains(m))
}

fn find_entity(ents: &Vec<EntityDecl>, name: &String) -> (r: Option<usize>)
    ensures
        match r {
            Some(m) => entity_position(ents@, name@) == Some(m as int),
            None => entity_position(ents@, name@) is None,
        },
{
    let mut k: usize = 0;
    while k < ents.len()
        invariant
            k <= ents@.len(),
            entity_position(ents@.take(k as int), name@) is None,
        decreases ents@.len() - k,
    {
        assert(ents@.take(k + 1).drop_last() =~= ents@.take(k as int));
        if ents[k].name == *name {
            proof {
                lemma_position_prefix(ents@, k + 1, name@);
            }
            return Some(k);
        }
        k = k + 1;
    }
    assert(ents@.take(ents@.len() as int) =~= ents@);
    None
}

proof fn lemma_position_prefix(ents: Seq<EntityDecl>, n: int, name: Seq<char>)
    requires
        0 <= n <= ents.len(),
        entity_position(ents.take(n), name) is Some,
    ensures
        entity_position(ents, name) == entity_position(ents.take(n), name),
    decreases ents.len() - n,
{
    if n < ents.len() {
        assert(ents.take(n + 1).drop_last() =~= ents.take(n));
        lemma_position_prefix(ents, n + 1, name);
    } else {
        assert(ents.take(n) =~= ents);
    }
}

fn contains_index(v: &Vec<usize>, x: usize) -> (r: bool)
    ensures
        r == ints(v@).contains(x as int),
{
    let mut k: usize = 0;
    while k < v.len()
        invariant
            k <= v@.len(),
            forall|i: int| 0 <= i < k ==> v@[i] != x,
        decreases v@.len() - k,
    {
        if v[k] == x {
            assert(ints(v@)[k as int] == x as int);
            return true;
        }
        k = k + 1;
    }
    proof {
        if ints(v@).contains(x as int) {
            let i = choose|i: int| 0 <= i < ints(v@).len() && ints(v@)[i] == x as int;
            assert(v@[i] == x);
        }
    }
    false
}

/// The supertypes of one entity, resolved in its schema.
fn resolve_parents(ents: &Vec<EntityDecl>, names: &Vec<String>) -> (r: Result<Vec<usize>, String>)
    ensures
        match r {
            Ok(v) => names_resolve(ents@, names@) && ints(v@) == parents(ents@, names@),
            Err(n) => exists|i: int| first_unresolved_at(ents@, names@, i) && names@[i] == n,
        },
{
    let mut out: Vec<usize> = Vec::new();
    let mut i: usize = 0;
    while i < names.len()
        invariant
            i <= names@.len(),
            names_resolve(ents@, names@.take(i as int)),
            ints(out@) == parents(ents@, names@.take(i as int)),
        decreases names@.len() - i,
    {
        let ghost pre = names@.take(i + 1);
        assert(pre.drop_last() =~= names@.take(i as int));
        match find_entity(ents, &names[i]) {
            Some(m) => {
                if !contains_index(&out, m) {
                    let ghost prev = out@;
                    out.push(m);
                    assert(ints(out@) =~= ints(prev).push(m as int));
                }
                proof {
                    assert forall|j: int| 0 <= j < pre.len() implies entity_position(ents@, #[trigger] pre[j]@) is Some by {
                        if j < i {
                            assert(pre[j] == names@.take(i as int)[j]);
                        }
                    }
                }
            },
            None => {
                proof {
                    assert(names@[i as int] == names[i as int]);
                    assert forall|j: int| 0 <= j < i implies entity_position(ents@, #[trigger] names@[j]@) is Some by {
                        assert(names@.take(i as int)[j] == names@[j]);
                    }
                    assert(first_unresolved_at(ents@, names@, i as int));
                }
                let n = names[i].clone();
                return Err(n);
            },
        }
        i = i + 1;
    }
    assert(names@.take(names@.len() as int) =~= names@);
    Ok(out)
}

/// The `SUBTYPE OF` graph: for each entity, the positions of its supertypes.
pub open spec fn parent_graph(ents: Seq<EntityDecl>) -> Seq<Seq<int>> {
    Seq::new(ents.len(), |k: int| parents(ents, ents[k].subtype_of@))
}

/// Entity `a` lists entity `b` as a supertype.
pub open spec fn edge(g: Seq<Seq<int>>, a: int, b: int) -> bool {
    0 <= a < g.len() && g[a].contains(b)
}

/// A sequence of entities, each listing the next as a supertype.
pub open spec fn is_walk(g: Seq<Seq<int>>, w: Seq<int>) -> bool {
    forall|i: int| 0 <= i < w.len() - 1 ==> edge(g, #[trigger] w[i], w[i + 1])
}

/// Following `SUBTYPE OF` from some entity leads back to it.
pub open spec fn has_cycle(g: Seq<Seq<int>>) -> bool {
    exists|w: Seq<int>| w.len() >= 2 && is_walk(g, w) && w[0] == w[w.len() - 1]
}

/// Every supertype has a smaller rank than its subtype.
pub open spec fn ranked(g: Seq<Seq<int>>, rank: Seq<int>) -> bool {
    &&& rank.len() == g.len()
    &&& forall|a: int, b: int| edge(g, a, b) ==> 0 <= b < g.len() && rank[b] < rank[a]
}

proof fn lemma_walk_descends(g: Seq<Seq<int>>, rank: Seq<int>, w: Seq<int>)
    requires
        ranked(g, rank),
        is_walk(g, w),
        w.len() >= 2,
    ensures
        rank[w[w.len() - 1]] < rank[w[0]],
    decreases w.len(),
{
    assert(edge(g, w[w.len() - 2], w[w.len() - 1]));
    if w.len() > 2 {
        let v = w.drop_last();
        assert forall|i: int| 0 <= i < v.len() - 1 implies edge(g, #[trigger] v[i], v[i + 1]) by {
            assert(edge(g, w[i], w[i + 1]));
        }
        lemma_walk_descends(g, rank, v);
    }
}

proof fn lemma_ranked_acyclic(g: Seq<Seq<int>>, rank: Seq<int>)
    requires
        ranked(g, rank),
    ensures
        !has_cycle(g),
{
    if has_cycle(g) {
        let w = choose|w: Seq<int>| w.len() >= 2 && is_walk(g, w) && w[0] == w[w.len() - 1];
        lemma_walk_descends(g, rank, w);
    }
}

/// Whether the entities listed in `sups` (positions below its length) form a
/// `SUBTYPE OF` graph with a cycle.
fn find_cycle(sups: &Vec<Vec<usize>>, g: Ghost<Seq<Seq<int>>>) -> (r: bool)
    requires
        g@.len() == sups@.len(),
        forall|k: int| 0 <= k < sups@.len() ==> ints(#[trigger] sups@[k]@) == g@[k],
        forall|k: int| 0 <= k < sups@.len() ==> refers_within(ints(#[trigger] sups@[k]@), sups@.len() as int),
    ensures
        r == has_cycle(g@),
{
    let n = sups.len();
    let mut done: Vec<bool> = Vec::new();
    let mut rank: Vec<usize> = Vec::new();
    let mut k: usize = 0;
    while k < n
        invariant
            k <= n,
            done@.len() == k,
            rank@.len() == k,
            forall|v: int| 0 <= v < k ==> !done@[v],
            count_done(done@) == 0,
        decreases n - k,
    {
        let ghost prev = done@;
        done.push(false);
        assert(done@.drop_last() =~= prev);
        rank.push(0);
        k = k + 1;
    }
    let mut marked: usize = 0;
    loop
        invariant
            n == sups@.len(),
            g@.len() == n,
            forall|k: int| 0 <= k < n ==> ints(#[trigger] sups@[k]@) == g@[k],
            forall|k: int| 0 <= k < n ==> refers_within(ints(#[trigger] sups@[k]@), n as int),
            done@.len() == n,
            rank@.len() == n,
            marked == count_done(done@),
            marked <= n,
            forall|v: int| 0 <= v < n && #[trigger] done@[v] ==> rank@[v] < marked,
            forall|v: int, p: int| 0 <= v < n && done@[v] && #[trigger] g@[v].contains(p) ==> 0 <= p < n && done@[p]
                && rank@[p] < rank@[v],
        decreases n - marked,
    {
        let start = marked;
        let mut v: usize = 0;
        while v < n
            invariant
                n == sups@.len(),
                g@.len() == n,
                forall|k: int| 0 <= k < n ==> ints(#[trigger] sups@[k]@) == g@[k],
                forall|k: int| 0 <= k < n ==> refers_within(ints(#[trigger] sups@[k]@), n as int),
                done@.len() == n,
                rank@.len() == n,
                v <= n,
                start <= marked,
                marked == count_done(done@),
                marked <= n,
                forall|x: int| 0 <= x < n && #[trigger] done@[x] ==> rank@[x] < marked,
                forall|x: int, p: int| 0 <= x < n && done@[x] && #[trigger] g@[x].contains(p) ==> 0 <= p < n && done@[p]
                    && rank@[p] < rank@[x],
                marked == start ==> forall|x: int| 0 <= x < v ==> #[trigger] done@[x] || exists|p: int|
                    g@[x].contains(p) && !done@[p],
            decreases n - v,
        {
            if !done[v] {
                let ps = &sups[v];
                let mut ready = true;
                let mut i: usize = 0;
                while i < ps.len()
                    invariant
                        n == sups@.len(),
                        v < n,
                        ps@ == sups@[v as int]@,
                        ints(ps@) == g@[v as int],
                        refers_within(ints(ps@), n as int),
                        done@.len() == n,
                        i <= ps@.len(),
                        ready ==> forall|j: int| 0 <= j < i ==> done@[ps@[j] as int],
                        !ready ==> exists|p: int| g@[v as int].contains(p) && !done@[p],
                    decreases ps@.len() - i,
                {
                    assert(ints(ps@)[i as int] == ps@[i as int] as int);
                    if !done[ps[i]] {
                        if ready {
                            assert(g@[v as int].contains(ps@[i as int] as int));
                        }
                        ready = false;
                    }
                    i = i + 1;
                }
                if ready {
                    proof {
                        lemma_count_mark(done@, v as int);
                        assert forall|p: int| #[trigger] g@[v as int].contains(p) implies 0 <= p < n && done@[p]
                            && rank@[p] < marked by {
                            let j = choose|j: int| 0 <= j < g@[v as int].len() && g@[v as int][j] == p;
                            assert(ints(ps@)[j] == ps@[j] as int);
                        }
                    }
                    done.set(v, true);
                    rank.set(v, marked);
                    marked = marked + 1;
                }
            }
            v = v + 1;
        }
        if marked == start {
            // Nothing changed in a whole pass: every entity left has a supertype left.
            if marked == n {
                proof {
                    let rk = Seq::new(n as nat, |x: int| rank@[x] as int);
                    lemma_count_all(done@);
                    assert(ranked(g@, rk));
                    lemma_ranked_acyclic(g@, rk);
                }
                return false;
            }
            proof {
                lemma_count_all(done@);
            }
            let mut v0: usize = 0;
            while v0 < n && done[v0]
                invariant
                    done@.len() == n,
                    v0 <= n,
                    forall|x: int| 0 <= x < v0 ==> done@[x],
                    exists|x: int| 0 <= x < n && !done@[x],
                decreases n - v0,
            {
                v0 = v0 + 1;
            }
            return walk_to_cycle(sups, g, &done, v0);
        }
    }
}

/// The number of entities marked done.
pub open spec fn count_done(d: Seq<bool>) -> nat
    decreases d.len(),
{
    if d.len() == 0 {
        0
    } else {
        count_done(d.drop_last()) + if d.last() { 1nat } else { 0nat }
    }
}

proof fn lemma_count_mark(d: Seq<bool>, v: int)
    requires
        0 <= v < d.len(),
        !d[v],
    ensures
        count_done(d.update(v, true)) == count_done(d) + 1,
        count_done(d) < d.len(),
    decreases d.len(),
{
    let u = d.update(v, true);
    if v == d.len() - 1 {
        assert(u.drop_last() =~= d.drop_last());
    } else {
        assert(u.drop_last() =~= d.drop_last().update(v, true));
        lemma_count_mark(d.drop_last(), v);
    }
    lemma_count_bound(d.drop_last());
}

proof fn lemma_count_bound(d: Seq<bool>)
    ensures
        count_done(d) <= d.len(),
    decreases d.len(),
{
    if d.len() > 0 {
        lemma_count_bound(d.drop_last());
    }
}

proof fn lemma_count_all(d: Seq<bool>)
    ensures
        count_done(d) == d.len() <==> forall|x: int| 0 <= x < d.len() ==> d[x],
    decreases d.len(),
{
    lemma_count_bound(d);
    if d.len() > 0 {
        lemma_count_all(d.drop_last());
        lemma_count_bound(d.drop_last());
        if forall|x: int| 0 <= x < d.len() ==> d[x] {
            assert forall|x: int| 0 <= x < d.drop_last().len() implies d.drop_last()[x] by {
                assert(d[x]);
            }
        }
        if count_done(d) == d.len() {
            assert forall|x: int| 0 <= x < d.len() implies d[x] by {
                if x < d.len() - 1 {
                    assert(d.drop_last()[x]);
                }
            }
        }
    }
}

/// From an entity not done, where every entity not done has a supertype not done,
/// follows such supertypes until an entity repeats: that is a cycle.
fn walk_to_cycle(sups: &Vec<Vec<usize>>, g: Ghost<Seq<Seq<int>>>, done: &Vec<bool>, v0: usize) -> (r: bool)
    requires
        g@.len() == sups@.len(),
        done@.len() == sups@.len(),
        v0 < sups@.len(),
        !done@[v0 as int],
        forall|k: int| 0 <= k < sups@.len() ==> ints(#[trigger] sups@[k]@) == g@[k],
        forall|k: int| 0 <= k < sups@.len() ==> refers_within(ints(#[trigger] sups@[k]@), sups@.len() as int),
        forall|x: int| 0 <= x < sups@.len() ==> #[trigger] done@[x] || exists|p: int| g@[x].contains(p) && !done@[p],
    ensures
        r && has_cycle(g@),
{
    let n = sups.len();
    let mut w: Vec<usize> = vec![v0];
    while w.len() <= n
        invariant
            n == sups@.len(),
            g@.len() == n,
            done@.len() == n,
            1 <= w@.len() <= n + 1,
            forall|k: int| 0 <= k < n ==> ints(#[trigger] sups@[k]@) == g@[k],
            forall|k: int| 0 <= k < n ==> refers_within(ints(#[trigger] sups@[k]@), n as int),
            forall|x: int| 0 <= x < n ==> #[trigger] done@[x] || exists|p: int| g@[x].contains(p) && !done@[p],
            forall|i: int| 0 <= i < w@.len() ==> #[trigger] w@[i] < n && !done@[w@[i] as int],
            is_walk(g@, ints(w@)),
        decreases n + 1 - w@.len(),
    {
        let last = w[w.len() - 1];
        let ps = &sups[last];
        let mut i: usize = 0;
        let mut next: usize = 0;
        let mut found = false;
        proof {
            let p = choose|p: int| g@[last as int].contains(p) && !done@[p];
            let j = choose|j: int| 0 <= j < g@[last as int].len() && g@[last as int][j] == p;
            assert(ints(ps@)[j] == ps@[j] as int);
        }
        while i < ps.len() && !found
            invariant
                n == sups@.len(),
                last < n,
                ps@ == sups@[last as int]@,
                ints(ps@) == g@[last as int],
                refers_within(ints(ps@), n as int),
                done@.len() == n,
                i <= ps@.len(),
                found ==> next < n && !done@[next as int] && g@[last as int].contains(next as int),
                !found ==> exists|j: int| i <= j < ps@.len() && !done@[ps@[j] as int],
            decreases ps@.len() - i,
        {
            assert(ints(ps@)[i as int] == ps@[i as int] as int);
            if !done[ps[i]] {
                next = ps[i];
                found = true;
            }
            i = i + 1;
        }
        let ghost prev = w@;
        w.push(next);
        proof {
            assert(ints(w@) =~= ints(prev).push(next as int));
            assert forall|i: int| 0 <= i < ints(w@).len() - 1 implies edge(g@, #[trigger] ints(w@)[i], ints(w@)[i + 1]) by {
                if i < ints(prev).len() - 1 {
                    assert(edge(g@, ints(prev)[i], ints(prev)[i + 1]));
                }
            }
        }
    }
    // n + 1 entities among n positions: two are the same.
    let mut a: usize = 0;
    while a < w.len()
        invariant
            n == sups@.len(),
            w@.len() == n + 1,
            a <= w@.len(),
            forall|i: int| 0 <= i < w@.len() ==> #[trigger] w@[i] < n,
            is_walk(g@, ints(w@)),
            forall|x: int, y: int| 0 <= x < a && x < y < w@.len() ==> w@[x] != w@[y],
        decreases w@.len() - a,
    {
        let mut b: usize = a + 1;
        while b < w.len()
            invariant
                n == sups@.len(),
                w@.len() == n + 1,
                a < b <= w@.len(),
                is_walk(g@, ints(w@)),
                forall|x: int, y: int| 0 <= x < a && x < y < w@.len() ==> w@[x] != w@[y],
                forall|y: int| a < y < b ==> w@[a as int] != w@[y],
            decreases w@.len() - b,
        {
            if w[a] == w[b] {
                proof {
                    let c = ints(w@).subrange(a as int, b + 1);
                    assert forall|i: int| 0 <= i < c.len() - 1 implies edge(g@, #[trigger] c[i], c[i + 1]) by {
                        assert(edge(g@, ints(w@)[a + i], ints(w@)[a + i + 1]));
                    }
                    assert(c.len() >= 2 && is_walk(g@, c) && c[0] == c[c.len() - 1]);
                }
                return true;
            }
            b = b + 1;
        }
        a = a + 1;
    }
    proof {
        let s = ints(w@);
        assert(s.no_duplicates());
        s.unique_seq_to_set();
        lemma_int_range(0, n as int);
        assert(s.to_set().subset_of(set_int_range(0, n as int)));
        lemma_len_subset(s.to_set(), set_int_range(0, n as int));
    }
    false
}

/// The scope inside entity `e`.
pub open spec fn entity_scope(here: Seq<StepView>, e: EntityDecl) -> Seq<StepView> {
    here.push((ScopeType::Entity, e.name@))
}

/// Entity `k` legalizes: its supertypes are entities and its attributes resolve.
pub open spec fn entity_ok(ents: Seq<EntityDecl>, k: int, paths: Seq<PathView>, here: Seq<StepView>) -> bool {
    names_resolve(ents, ents[k].subtype_of@) && attrs_legal(ents[k].attributes@, paths, entity_scope(here, ents[k])) is Ok
}

/// Entity `k` is the first, in source order, that fails, and `x` is its first error:
/// an unknown supertype name before its attributes, then the first failing attribute.
pub open spec fn fails_first(ents: Seq<EntityDecl>, k: int, paths: Seq<PathView>, here: Seq<StepView>, x: SemanticError) -> bool {
    &&& 0 <= k < ents.len()
    &&& forall|j: int| 0 <= j < k ==> #[trigger] entity_ok(ents, j, paths, here)
    &&& if !names_resolve(ents, ents[k].subtype_of@) {
        exists|i: int|
            first_unresolved_at(ents, ents[k].subtype_of@, i) && match x {
                SemanticError::UnresolvedName { name, scope } => name@ == #[trigger] ents[k].subtype_of@[i]@
                    && scope@ == here,
                _ => false,
            }
    } else {
        match attrs_legal(ents[k].attributes@, paths, entity_scope(here, ents[k])) {
            Err(AttrFault::Duplicate(n)) => match x {
                SemanticError::DuplicateAttribute { name } => name@ == n,
                _ => false,
            },
            Err(AttrFault::Type(f)) => fault_is(f, x, entity_scope(here, ents[k])),
            Ok(_) => false,
        }
    }
}

impl Schema {
    /// Legalizes the inheritance of a schema's entities: each `SUBTYPE OF` name is
    /// resolved to an entity of the schema, and each entity learns its subtypes.
    /// Entities are taken in source order: the `SUBTYPE OF` names of each, then its
    /// attributes, whose types are resolved from the entity's scope. Then each `TYPE`
    /// declaration has its underlying type resolved, in source order. The first
    /// failure is reported; where there is none, a cycle through `SUBTYPE OF` is
    /// refused.
    pub fn legalize(ns: &Namespace, scope: &Scope, schema: &SchemaDecl) -> (r: Result<Schema, SemanticError>)
        ensures
            match r {
                Ok(s) => s.name@ == schema.name@ && (forall|k: int| 0 <= k < schema.entities@.len()
                    ==> #[trigger] entity_ok(schema.entities@, k, ns@, scope@.push((ScopeType::Schema, schema.name@))))
                    && legal_inheritance(schema.entities@, s.entities@)
                    && !has_cycle(parent_graph(schema.entities@))
                    && forall|k: int| 0 <= k < schema.entities@.len() ==> attrs_legal(
                        #[trigger] schema.entities@[k].attributes@,
                        ns@,
                        entity_scope(scope@.push((ScopeType::Schema, schema.name@)), schema.entities@[k]),
                    ) == Ok::<Seq<crate::typeref::AttributeView>, AttrFault>(attribute_views(s.entities@[k].attributes@))
                    && legal_types(schema.types@, s.types@, ns@, scope@.push((ScopeType::Schema, schema.name@))),
                Err(x) => (x is CyclicInheritance && (forall|k: int| 0 <= k < schema.entities@.len()
                    ==> #[trigger] entity_ok(schema.entities@, k, ns@, scope@.push((ScopeType::Schema, schema.name@))))
                    && (forall|k: int| 0 <= k < schema.types@.len()
                    ==> #[trigger] type_ok(schema.types@, k, ns@, scope@.push((ScopeType::Schema, schema.name@))))
                    && has_cycle(parent_graph(schema.entities@))) || (exists|k: int|
                    fails_first(schema.entities@, k, ns@, scope@.push((ScopeType::Schema, schema.name@)), x))
                    || (exists|k: int| type_fails_first(
                        schema.entities@,
                        schema.types@,
                        k,
                        ns@,
                        scope@.push((ScopeType::Schema, schema.name@)),
                        x,
                    )),
            },
    {
        let ents = &schema.entities;
        let n = ents.len();
        let here = scope.schema(schema.name.as_str());
        let mut sups: Vec<Vec<usize>> = Vec::new();
        let mut k: usize = 0;
        while k < n
            invariant
                n == ents@.len(),
                ents@ == schema.entities@,
                k <= n,
                sups@.len() == k,
                forall|j: int| 0 <= j < k ==> ints(#[trigger] sups@[j]@) == parents(ents@, ents@[j].subtype_of@),
                forall|j: int| 0 <= j < k ==> names_resolve(ents@, #[trigger] ents@[j].subtype_of@),
                forall|j: int| 0 <= j < k ==> refers_within(ints(#[trigger] sups@[j]@), n as int),
                here@ == scope@.push((ScopeType::Schema, schema.name@)),
                forall|j: int| 0 <= j < k ==> #[trigger] entity_ok(ents@, j, ns@, here@),
            decreases n - k,
        {
            match resolve_parents(ents, &ents[k].subtype_of) {
                Ok(v) => {
                    proof {
                        lemma_parents_range(ents@, ents@[k as int].subtype_of@);
                    }
                    let escope = here.pushed(ScopeType::Entity, ents[k].name.as_str());
                    assert(escope@ == entity_scope(here@, ents@[k as int]));
                    match legalize_attributes(ns, &escope, &ents[k].attributes) {
                        Ok(_) => {},
                        Err(x) => {
                            proof {
                                assert(fails_first(schema.entities@, k as int, ns@, here@, x));
                            }
                            return Err(x);
                        },
                    }
                    sups.push(v);
                },
                Err(name) => {
                    proof {
                        let names = ents@[k as int].subtype_of@;
                        let i = choose|i: int| first_unresolved_at(ents@, names, i) && names[i] == name;
                        assert(first_unresolved_at(schema.entities@, schema.entities@[k as int].subtype_of@, i));
                        assert(!names_resolve(ents@, names));
                    }
                    let err = SemanticError::UnresolvedName { name, scope: here.duplicate() };
                    proof {
                        let names = ents@[k as int].subtype_of@;
                        let i = choose|i: int| first_unresolved_at(ents@, names, i) && names[i]@ == err->UnresolvedName_name@;
                        assert(fails_first(schema.entities@, k as int, ns@, here@, err));
                    }
                    return Err(err);
                },
            }
            k = k + 1;
        }
        let mut types: Vec<TypeDef> = Vec::new();
        let mut k: usize = 0;
        while k < schema.types.len()
            invariant
                k <= schema.types@.len(),
                here@ == scope@.push((ScopeType::Schema, schema.name@)),
                ents@ == schema.entities@,
                forall|j: int| 0 <= j < ents@.len() ==> #[trigger] entity_ok(ents@, j, ns@, here@),
                forall|j: int| 0 <= j < k ==> #[trigger] type_ok(schema.types@, j, ns@, here@),
                legal_types(schema.types@.take(k as int), types@, ns@, here@),
            decreases schema.types@.len() - k,
        {
            let d = &schema.types[k];
            let tscope = here.pushed(ScopeType::Type, d.name.as_str());
            assert(tscope@ == type_scope(here@, schema.types@[k as int]));
            match attribute_type(ns, &tscope, d.underlying.as_str()) {
                Ok(u) => {
                    let ghost prev = types@;
                    types.push(TypeDef { name: d.name.clone(), underlying: u });
                    proof {
                        assert(schema.types@.take(k + 1) =~= schema.types@.take(k as int).push(*d));
                        assert forall|j: int| 0 <= j < types@.len() implies type_def_is(
                            schema.types@.take(k + 1)[j],
                            #[trigger] types@[j],
                            ns@,
                            here@,
                        ) by {
                            if j < k {
                                assert(types@[j] == prev[j]);
                                assert(schema.types@.take(k + 1)[j] == schema.types@.take(k as int)[j]);
                            }
                        }
                    }
                },
                Err(x) => {
                    proof {
                        assert(type_fails_first(schema.entities@, schema.types@, k as int, ns@, here@, x));
                    }
                    return Err(x);
                },
            }
            k = k + 1;
        }
        proof {
            assert(schema.types@.take(schema.types@.len() as int) =~= schema.types@);
        }
        let ghost g = parent_graph(ents@);
        proof {
            assert forall|k: int| 0 <= k < sups@.len() implies ints(#[trigger] sups@[k]@) == g[k] by {}
        }
        if find_cycle(&sups, Ghost(g)) {
            return Err(SemanticError::CyclicInheritance);
        }
        let mut entities: Vec<Entity> = Vec::new();
        let mut m: usize = 0;
        while m < n
            invariant
                n == ents@.len(),
                ents@ == schema.entities@,
                m <= n,
                sups@.len() == n,
                forall|j: int| 0 <= j < n ==> ints(#[trigger] sups@[j]@) == parents(ents@, ents@[j].subtype_of@),
                entities@.len() == m,
                forall|j: int| 0 <= j < m ==> (#[trigger] entities@[j]).name@ == ents@[j].name@,
                forall|j: int| 0 <= j < m ==> (#[trigger] entities@[j]).supertypes@ == sups@[j]@,
                forall|j: int| 0 <= j < m ==> refs_cached(ents@, #[trigger] entities@[j]),
                here@ == scope@.push((ScopeType::Schema, schema.name@)),
                forall|j: int| 0 <= j < n ==> #[trigger] entity_ok(ents@, j, ns@, here@),
                legal_types(schema.types@, types@, ns@, here@),
                forall|j: int| 0 <= j < m ==> attrs_legal(
                    #[trigger] ents@[j].attributes@,
                    ns@,
                    entity_scope(here@, ents@[j]),
                ) == Ok::<Seq<crate::typeref::AttributeView>, AttrFault>(attribute_views(entities@[j].attributes@)),
                forall|j: int| 0 <= j < m ==> strictly_increasing(ints((#[trigger] entities@[j]).subtypes@)),
                forall|j: int| 0 <= j < m ==> refers_within(ints((#[trigger] entities@[j]).subtypes@), n as int),
                forall|j: int| 0 <= j < n ==> refers_within(ints(#[trigger] sups@[j]@), n as int),
                forall|j: int, k: int|
                    #![trigger ints(entities@[j].subtypes@).contains(k)]
                    #![trigger ints(sups@[k]@).contains(j)]
                    0 <= j < m && 0 <= k < n ==> (ints(entities@[j].subtypes@).contains(k) <==> ints(
                        sups@[k]@,
                    ).contains(j)),
            decreases n - m,
        {
            let mut subs: Vec<usize> = Vec::new();
            let mut k: usize = 0;
            while k < n
                invariant
                    n == ents@.len(),
                    m < n,
                    k <= n,
                    sups@.len() == n,
                    strictly_increasing(ints(subs@)),
                    forall|i: int| 0 <= i < subs@.len() ==> subs@[i] < k,
                    forall|x: int| 0 <= x < k ==> (ints(subs@).contains(x) <==> ints(#[trigger] sups@[x]@).contains(m as int)),
                    forall|x: int| ints(subs@).contains(x) ==> 0 <= x < k,
                decreases n - k,
            {
                if contains_index(&sups[k], m) {
                    let ghost prev = subs@;
                    subs.push(k);
                    proof {
                        assert(ints(subs@) =~= ints(prev).push(k as int));
                        assert forall|x: int| ints(subs@).contains(x) implies 0 <= x < k + 1 by {
                            if x != k as int {
                                assert(ints(prev).contains(x));
                            }
                        }
                        assert forall|x: int| 0 <= x < k + 1 implies (ints(subs@).contains(x) <==> ints(#[trigger] sups@[x]@).contains(m as int)) by {
                            if x < k {
                                if ints(subs@).contains(x) {
                                    let i = choose|i: int| 0 <= i < ints(subs@).len() && ints(subs@)[i] == x;
                                    if i < prev.len() {
                                        assert(ints(prev)[i] == x);
                                    }
                                }
                                if ints(prev).contains(x) {
                                    let i = choose|i: int| 0 <= i < ints(prev).len() && ints(prev)[i] == x;
                                    assert(ints(subs@)[i] == x);
                                }
                                assert(ints(prev).contains(x) <==> ints(sups@[x]@).contains(m as int));
                            } else {
                                assert(ints(subs@)[prev.len() as int] == k as int);
                            }
                        }
                    }
                } else {
                    proof {
                        assert(!ints(sups@[k as int]@).contains(m as int));
                        assert forall|x: int| 0 <= x < k + 1 implies (ints(subs@).contains(x) <==> ints(#[trigger] sups@[x]@).contains(m as int)) by {
                            if x == k as int {
                                assert(!ints(subs@).contains(x));
                            } else {
                                assert(ints(subs@).contains(x) <==> ints(sups@[x]@).contains(m as int));
                            }
                        }
                    }
                }
                k = k + 1;
            }
            proof {
                assert forall|i: int| 0 <= i < ints(subs@).len() implies 0 <= #[trigger] ints(subs@)[i] < n as int by {
                    assert(subs@[i] < n);
                }
            }
            let escope = here.pushed(ScopeType::Entity, ents[m].name.as_str());
            assert(escope@ == entity_scope(here@, ents@[m as int]));
            assert(entity_ok(ents@, m as int, ns@, here@));
            let attributes = match legalize_attributes(ns, &escope, &ents[m].attributes) {
                Ok(a) => a,
                Err(_) => {
                    proof {
                        assert(false);
                    }
                    Vec::new()
                },
            };
            let mut supertype_refs: Vec<SupertypeRef> = Vec::new();
            let mine = &sups[m];
            let mut x: usize = 0;
            while x < mine.len()
                invariant
                    n == ents@.len(),
                    sups@.len() == n,
                    m < n,
                    mine@ == sups@[m as int]@,
                    refers_within(ints(mine@), n as int),
                    forall|j: int| 0 <= j < n ==> ints(#[trigger] sups@[j]@) == parents(ents@, ents@[j].subtype_of@),
                    x <= mine@.len(),
                    supertype_refs@.len() == x,
                    forall|y: int| 0 <= y < x ==> {
                        let r = #[trigger] supertype_refs@[y];
                        &&& r.entity == mine@[y]
                        &&& r.is_supertype
                        &&& ints(r.supertypes@) == parents(ents@, ents@[r.entity as int].subtype_of@)
                    },
                decreases mine@.len() - x,
            {
                let p = mine[x];
                assert(ints(mine@)[x as int] == p as int);
                let ghost prev = supertype_refs@;
                supertype_refs.push(SupertypeRef { entity: p, is_supertype: true, supertypes: sups[p].clone() });
                proof {
                    assert(ints(sups@[p as int]@) == parents(ents@, ents@[p as int].subtype_of@));
                    assert forall|y: int| 0 <= y < x + 1 implies {
                        let r = #[trigger] supertype_refs@[y];
                        &&& r.entity == mine@[y]
                        &&& r.is_supertype
                        &&& ints(r.supertypes@) == parents(ents@, ents@[r.entity as int].subtype_of@)
                    } by {
                        if y < x {
                            assert(supertype_refs@[y] == prev[y]);
                        }
                    }
                }
                x = x + 1;
            }
            let entity = Entity {
                name: ents[m].name.clone(),
                supertypes: sups[m].clone(),
                subtypes: subs,
                attributes,
                supertype_refs,
            };
            entities.push(entity);
            m = m + 1;
        }
        let name = text_of(schema.name.as_str());
        Ok(Schema { name, entities, types })
    }
}

/// Every supertype and subtype entry of a legalized schema names one of its entities:
/// no reference is left unresolved.
pub proof fn references_resolved(ents: Seq<EntityDecl>, out: Seq<Entity>, e: int)
    requires
        legal_inheritance(ents, out),
        0 <= e < out.len(),
    ensures
        forall|i: int| 0 <= i < out[e].supertypes@.len() ==> #[trigger] out[e].supertypes@[i] < out.len(),
        forall|i: int| 0 <= i < out[e].subtypes@.len() ==> #[trigger] out[e].subtypes@[i] < out.len(),
{
    assert forall|i: int| 0 <= i < out[e].supertypes@.len() implies #[trigger] out[e].supertypes@[i] < out.len() by {
        assert(ints(out[e].supertypes@)[i] == out[e].supertypes@[i] as int);
    }
    assert forall|i: int| 0 <= i < out[e].subtypes@.len() implies #[trigger] out[e].subtypes@[i] < out.len() by {
        assert(ints(out[e].subtypes@)[i] == out[e].subtypes@[i] as int);
    }
}

/// In a legalized schema, an entity that lists another among its supertypes is
/// listed among that entity's subtypes, and the other way round.
pub proof fn supertype_closure(ents: Seq<EntityDecl>, out: Seq<Entity>, e: int, p: int)
    requires
        legal_inheritance(ents, out),
        0 <= e < out.len(),
        0 <= p < out.len(),
    ensures
        ints(out[e].supertypes@).contains(p) <==> ints(out[p].subtypes@).contains(e),
{
}

/// A name that resolves from the schema resolves, from inside any of its entities,
/// to the same declaration, as long as the entity's scope declares no such name:
/// attribute types are bound as they would be at the schema level.
pub proof fn entity_scope_resolves_as_schema(paths: Seq<PathView>, here: Seq<StepView>, e: EntityDecl, name: Seq<char>)
    requires
        crate::namespace::resolve_spec(paths, here, name) is Some,
        crate::namespace::find_from(paths, entity_scope(here, e), name, 0) is None,
    ensures
        crate::namespace::resolve_spec(paths, entity_scope(here, e), name) == crate::namespace::resolve_spec(paths, here, name),
{
    let inner = seq![(ScopeType::Entity, e.name@)];
    assert(here + inner =~= entity_scope(here, e));
    assert(inner.take(1) =~= inner);
    crate::namespace::resolve_stable_inward(paths, here, inner, name);
}

/// An attribute whose type is a single name is bound, inside its entity, to the
/// declaration that the name resolves to from the schema, when the entity's scope
/// declares no such name: legalization binds it as the schema level would.
pub proof fn attribute_name_binds_as_in_schema(
    text: Seq<char>,
    w: Seq<char>,
    paths: Seq<PathView>,
    here: Seq<StepView>,
    e: EntityDecl,
    p: int,
)
    requires
        crate::supertype::word_spec(text, 0) == Some((text.len() as int, w)),
        crate::typeref::simple_of(w) is None,
        crate::typeref::aggregate_of(w) is None,
        !crate::supertype::is_keyword(w, crate::typeref::kw_enumeration()),
        !crate::supertype::is_keyword(w, crate::typeref::kw_select()),
        crate::namespace::resolve_spec(paths, here, w) == Some(p),
        crate::namespace::find_from(paths, entity_scope(here, e), w, 0) is None,
    ensures
        0 <= p < paths.len(),
        whole_type_spec(text, paths, entity_scope(here, e)) == crate::typeref::TypeScan::Ok(
            (
                text.len() as int,
                if paths[p].kind == ScopeType::Entity {
                    TypeRefView::Entity(p)
                } else {
                    TypeRefView::Named(p)
                },
            ),
        ),
{
    entity_scope_resolves_as_schema(paths, here, e, w);
    crate::typeref::lemma_resolve_range(paths, here, w);
    assert(crate::token::gap(text, text.len() as int) == text.len());
}

} // verus!
