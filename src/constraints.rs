//! Instantiable subtype bundles from `SUPERTYPE OF` expressions.
use crate::ast::{EntityDecl, SchemaDecl, SuperTypeExpr, SyntaxTree};
use crate::namespace::{
    path_views, resolve_spec, schema_scope, Namespace, Path, PathView, Scope, ScopeType,
    SemanticError, StepView,
};
use vstd::prelude::*;

verus! {

/// A bundle of declaration indices, as integers.
pub open spec fn ints(b: Seq<usize>) -> Seq<int> {
    b.map_values(|x: usize| x as int)
}

pub open spec fn index_view(v: Seq<Vec<usize>>) -> Seq<Seq<int>> {
    v.map_values(|b: Vec<usize>| ints(b@))
}

/// Every index in every bundle names a declaration.
pub open spec fn in_range(bs: Seq<Seq<int>>, n: int) -> bool {
    forall|i: int, j: int| 0 <= i < bs.len() && 0 <= j < bs[i].len() ==> 0 <= #[trigger] bs[i][j] < n
}

/// `x` followed by each bundle of `bs`.
pub open spec fn row(x: Seq<int>, bs: Seq<Seq<int>>) -> Seq<Seq<int>> {
    bs.map_values(|y: Seq<int>| x + y)
}

/// Every bundle of `a` joined with every bundle of `b`; the bundles of `a` vary slowest.
pub open spec fn product(a: Seq<Seq<int>>, b: Seq<Seq<int>>) -> Seq<Seq<int>>
    decreases a.len(),
{
    if a.len() == 0 {
        Seq::empty()
    } else {
        product(a.drop_last(), b) + row(a.last(), b)
    }
}

/// The entity that a name resolves to from `scope`; a name that resolves to a
/// declaration of another kind names no entity.
pub open spec fn entity_ref(paths: Seq<PathView>, scope: Seq<StepView>, n: Seq<char>) -> Option<int> {
    match resolve_spec(paths, scope, n) {
        Some(j) => if 0 <= j < paths.len() && paths[j].kind == ScopeType::Entity {
            Some(j)
        } else {
            None
        },
        None => None,
    }
}

/// Every name in the expression resolves from `scope` to an entity.
pub open spec fn resolves(e: SuperTypeExpr, paths: Seq<PathView>, scope: Seq<StepView>) -> bool
    decreases e,
{
    match e {
        SuperTypeExpr::Reference(n) => entity_ref(paths, scope, n@) is Some,
        SuperTypeExpr::OneOf(a, b) => resolves(*a, paths, scope) && resolves(*b, paths, scope),
        SuperTypeExpr::And(a, b) => resolves(*a, paths, scope) && resolves(*b, paths, scope),
        SuperTypeExpr::AndOr(a, b) => resolves(*a, paths, scope) && resolves(*b, paths, scope),
    }
}

/// The first name of the expression, left to right, that does not resolve from `scope`.
pub open spec fn first_missing(e: SuperTypeExpr, paths: Seq<PathView>, scope: Seq<StepView>) -> Option<Seq<char>>
    decreases e,
{
    match e {
        SuperTypeExpr::Reference(n) => if entity_ref(paths, scope, n@) is Some {
            None
        } else {
            Some(n@)
        },
        SuperTypeExpr::OneOf(a, b) => either(first_missing(*a, paths, scope), first_missing(*b, paths, scope)),
        SuperTypeExpr::And(a, b) => either(first_missing(*a, paths, scope), first_missing(*b, paths, scope)),
        SuperTypeExpr::AndOr(a, b) => either(first_missing(*a, paths, scope), first_missing(*b, paths, scope)),
    }
}

pub open spec fn either<T>(x: Option<T>, y: Option<T>) -> Option<T> {
    match x {
        Some(v) => Some(v),
        None => y,
    }
}

/// The bundles an expression allows, as declaration indices:
/// a name gives one bundle of itself; `ONEOF` joins the bundle lists;
/// `AND` is the product; `ANDOR` is both sides, then their product.
pub open spec fn expand(e: SuperTypeExpr, paths: Seq<PathView>, scope: Seq<StepView>) -> Seq<Seq<int>>
    decreases e,
{
    match e {
        SuperTypeExpr::Reference(n) => match entity_ref(paths, scope, n@) {
            Some(j) => seq![seq![j]],
            None => Seq::empty(),
        },
        SuperTypeExpr::OneOf(a, b) => expand(*a, paths, scope) + expand(*b, paths, scope),
        SuperTypeExpr::And(a, b) => product(expand(*a, paths, scope), expand(*b, paths, scope)),
        SuperTypeExpr::AndOr(a, b) => expand(*a, paths, scope) + expand(*b, paths, scope) + product(
            expand(*a, paths, scope),
            expand(*b, paths, scope),
        ),
    }
}

fn concat(x: &Vec<usize>, y: &Vec<usize>) -> (r: Vec<usize>)
    ensures
        r@ == x@ + y@,
{
    let mut r: Vec<usize> = Vec::new();
    let mut k: usize = 0;
    while k < x.len()
        invariant
            k <= x@.len(),
            r@ == x@.take(k as int),
        decreases x@.len() - k,
    {
        r.push(x[k]);
        assert(x@.take(k + 1) =~= x@.take(k as int).push(x@[k as int]));
        k = k + 1;
    }
    let mut k: usize = 0;
    while k < y.len()
        invariant
            k <= y@.len(),
            r@ == x@ + y@.take(k as int),
        decreases y@.len() - k,
    {
        r.push(y[k]);
        assert(y@.take(k + 1) =~= y@.take(k as int).push(y@[k as int]));
        k = k + 1;
    }
    assert(x@.take(x@.len() as int) =~= x@);
    assert(y@.take(y@.len() as int) =~= y@);
    r
}

fn product_exec(a: &Vec<Vec<usize>>, b: &Vec<Vec<usize>>, n: Ghost<int>) -> (r: Vec<Vec<usize>>)
    requires
        in_range(index_view(a@), n@),
        in_range(index_view(b@), n@),
    ensures
        index_view(r@) == product(index_view(a@), index_view(b@)),
        in_range(index_view(r@), n@),
{
    let ghost av = index_view(a@);
    let ghost bv = index_view(b@);
    let mut out: Vec<Vec<usize>> = Vec::new();
    let mut i: usize = 0;
    while i < a.len()
        invariant
            i <= a@.len(),
            av == index_view(a@),
            bv == index_view(b@),
            in_range(av, n@),
            in_range(bv, n@),
            index_view(out@) == product(av.take(i as int), bv),
            in_range(index_view(out@), n@),
        decreases a@.len() - i,
    {
        let ghost start = index_view(out@);
        let mut j: usize = 0;
        while j < b.len()
            invariant
                i < a@.len(),
                j <= b@.len(),
                av == index_view(a@),
                bv == index_view(b@),
                in_range(av, n@),
                in_range(bv, n@),
                index_view(out@) == start + row(av[i as int], bv.take(j as int)),
                in_range(index_view(out@), n@),
            decreases b@.len() - j,
        {
            let c = concat(&a[i], &b[j]);
            let ghost prev = out@;
            out.push(c);
            proof {
                assert(ints(c@) =~= av[i as int] + bv[j as int]);
                assert(out@ == prev.push(c));
                assert(index_view(out@) =~= index_view(prev).push(ints(c@)));
                assert(row(av[i as int], bv.take(j + 1)) =~= row(av[i as int], bv.take(j as int)).push(
                    av[i as int] + bv[j as int],
                ));
                let v = index_view(out@);
                assert forall|x: int, y: int| 0 <= x < v.len() && 0 <= y < v[x].len() implies 0
                    <= #[trigger] v[x][y] < n@ by {
                    if x == v.len() - 1 {
                        if y < av[i as int].len() {
                            assert(v[x][y] == av[i as int][y]);
                        } else {
                            assert(v[x][y] == bv[j as int][y - av[i as int].len()]);
                        }
                    } else {
                        assert(v[x] == index_view(prev)[x]);
                    }
                }
            }
            j = j + 1;
        }
        proof {
            assert(bv.take(bv.len() as int) =~= bv);
            assert(av.take(i + 1).drop_last() =~= av.take(i as int));
        }
        i = i + 1;
    }
    proof {
        assert(av.take(av.len() as int) =~= av);
    }
    out
}

fn join(x: Vec<Vec<usize>>, y: Vec<Vec<usize>>, n: Ghost<int>) -> (r: Vec<Vec<usize>>)
    requires
        in_range(index_view(x@), n@),
        in_range(index_view(y@), n@),
    ensures
        index_view(r@) == index_view(x@) + index_view(y@),
        in_range(index_view(r@), n@),
{
    let mut r = x;
    let mut y = y;
    let ghost xv = index_view(r@);
    let ghost yv = index_view(y@);
    r.append(&mut y);
    assert(index_view(r@) =~= xv + yv);
    proof {
        let v = index_view(r@);
        assert forall|i: int, j: int| 0 <= i < v.len() && 0 <= j < v[i].len() implies 0
            <= #[trigger] v[i][j] < n@ by {
            if i < xv.len() {
                assert(v[i] == xv[i]);
            } else {
                assert(v[i] == yv[i - xv.len()]);
            }
        }
    }
    r
}

fn expand_exec(ns: &Namespace, scope: &Scope, e: &SuperTypeExpr) -> (r: Result<
    Vec<Vec<usize>>,
    SemanticError,
>)
    ensures
        match r {
            Ok(v) => resolves(*e, ns@, scope@) && first_missing(*e, ns@, scope@) is None && index_view(v@)
                == expand(*e, ns@, scope@) && in_range(index_view(v@), ns.paths@.len() as int),
            Err(SemanticError::UnresolvedName { name, scope: at }) => !resolves(*e, ns@, scope@)
                && first_missing(*e, ns@, scope@) == Some(name@) && at@ == scope@,
            Err(_) => false,
        },
    decreases e,
{
    let n: Ghost<int> = Ghost(ns.paths@.len() as int);
    match e {
        SuperTypeExpr::Reference(name) => match ns.resolve_index(scope, name.as_str()) {
            Some(j) => {
                assert(ns@[j as int] == ns.paths@[j as int]@);
                if ns.paths[j].kind != ScopeType::Entity {
                    return Err(SemanticError::UnresolvedName { name: name.clone(), scope: scope.duplicate() });
                }
                let r: Vec<Vec<usize>> = vec![vec![j]];
                assert(index_view(r@) =~= seq![seq![j as int]]) by {
                    assert(ints(r@[0]@) =~= seq![j as int]);
                }
                Ok(r)
            },
            None => Err(SemanticError::UnresolvedName { name: name.clone(), scope: scope.duplicate() }),
        },
        SuperTypeExpr::OneOf(a, b) => {
            let x = match expand_exec(ns, scope, a) {
                Ok(x) => x,
                Err(err) => {
                    return Err(err);
                },
            };
            let y = match expand_exec(ns, scope, b) {
                Ok(y) => y,
                Err(err) => {
                    return Err(err);
                },
            };
            Ok(join(x, y, n))
        },
        SuperTypeExpr::And(a, b) => {
            let x = match expand_exec(ns, scope, a) {
                Ok(x) => x,
                Err(err) => {
                    return Err(err);
                },
            };
            let y = match expand_exec(ns, scope, b) {
                Ok(y) => y,
                Err(err) => {
                    return Err(err);
                },
            };
            Ok(product_exec(&x, &y, n))
        },
        SuperTypeExpr::AndOr(a, b) => {
            let x = match expand_exec(ns, scope, a) {
                Ok(x) => x,
                Err(err) => {
                    return Err(err);
                },
            };
            let y = match expand_exec(ns, scope, b) {
                Ok(y) => y,
                Err(err) => {
                    return Err(err);
                },
            };
            let both = product_exec(&x, &y, n);
            let either = join(x, y, n);
            Ok(join(either, both, n))
        },
    }
}

/// Index bundles with each index replaced by the path it stands for.
pub open spec fn to_path_views(paths: Seq<PathView>, bs: Seq<Seq<int>>) -> Seq<Seq<PathView>> {
    bs.map_values(|b: Seq<int>| b.map_values(|j: int| paths[j]))
}

pub open spec fn bundle_views(v: Seq<Vec<Path>>) -> Seq<Seq<PathView>> {
    v.map_values(|b: Vec<Path>| path_views(b@))
}

fn to_paths(ns: &Namespace, v: &Vec<Vec<usize>>) -> (r: Vec<Vec<Path>>)
    requires
        in_range(index_view(v@), ns.paths@.len() as int),
    ensures
        bundle_views(r@) == to_path_views(ns@, index_view(v@)),
{
    let ghost iv = index_view(v@);
    let ghost target = to_path_views(ns@, iv);
    let mut out: Vec<Vec<Path>> = Vec::new();
    let mut i: usize = 0;
    while i < v.len()
        invariant
            i <= v@.len(),
            iv == index_view(v@),
            target == to_path_views(ns@, iv),
            in_range(iv, ns.paths@.len() as int),
            bundle_views(out@) == target.take(i as int),
        decreases v@.len() - i,
    {
        let mut b: Vec<Path> = Vec::new();
        let mut k: usize = 0;
        while k < v[i].len()
            invariant
                i < v@.len(),
                k <= v@[i as int]@.len(),
                iv == index_view(v@),
                target == to_path_views(ns@, iv),
                in_range(iv, ns.paths@.len() as int),
                path_views(b@) == target[i as int].take(k as int),
            decreases v@[i as int]@.len() - k,
        {
            let j = v[i][k];
            assert(iv[i as int][k as int] == j as int);
            let p = ns.paths[j].duplicate();
            let ghost prev = b@;
            b.push(p);
            proof {
                assert(b@ == prev.push(p));
                assert(path_views(b@) =~= path_views(prev).push(p@));
                assert(ns@[j as int] == ns.paths@[j as int]@);
                assert(target[i as int].take(k + 1) =~= target[i as int].take(k as int).push(p@));
            }
            k = k + 1;
        }
        let ghost prev = out@;
        proof {
            assert(target[i as int].take(target[i as int].len() as int) =~= target[i as int]);
        }
        out.push(b);
        proof {
            assert(out@ == prev.push(b));
            assert(bundle_views(out@) =~= bundle_views(prev).push(path_views(b@)));
            assert(target.take(i + 1) =~= target.take(i as int).push(target[i as int]));
        }
        i = i + 1;
    }
    proof {
        assert(target.take(target.len() as int) =~= target);
    }
    out
}

/// One entry of the table: a supertype and the bundles it may be instantiated as.
pub type RowView = (PathView, Seq<Seq<PathView>>);

/// The entries for the entities of one schema that carry a `SUPERTYPE OF` clause,
/// in source order.
pub open spec fn entity_rows(paths: Seq<PathView>, scope: Seq<StepView>, ents: Seq<EntityDecl>) -> Seq<RowView>
    decreases ents.len(),
{
    if ents.len() == 0 {
        Seq::empty()
    } else {
        let e = ents.last();
        entity_rows(paths, scope, ents.drop_last()) + match e.supertype_of {
            Some(x) => seq![
                (
                    PathView { scope, kind: ScopeType::Entity, name: e.name@ },
                    to_path_views(paths, expand(x, paths, scope)),
                ),
            ],
            None => Seq::empty(),
        }
    }
}

/// The entries for every schema, schema by schema.
pub open spec fn schema_rows(paths: Seq<PathView>, schemas: Seq<SchemaDecl>) -> Seq<RowView>
    decreases schemas.len(),
{
    if schemas.len() == 0 {
        Seq::empty()
    } else {
        schema_rows(paths, schemas.drop_last()) + entity_rows(
            paths,
            schema_scope(schemas.last().name@),
            schemas.last().entities@,
        )
    }
}

/// Every `SUPERTYPE OF` expression of the entities names only declared entities.
pub open spec fn entities_resolve(paths: Seq<PathView>, scope: Seq<StepView>, ents: Seq<EntityDecl>) -> bool {
    forall|k: int|
        0 <= k < ents.len() ==> match #[trigger] ents[k].supertype_of {
            Some(x) => resolves(x, paths, scope),
            None => true,
        }
}

/// The first unresolved name of the `SUPERTYPE OF` expressions of `ents`, in source
/// order, with the scope it was looked up from.
pub open spec fn first_missing_in_entities(paths: Seq<PathView>, scope: Seq<StepView>, ents: Seq<EntityDecl>) -> Option<(Seq<char>, Seq<StepView>)>
    decreases ents.len(),
{
    if ents.len() == 0 {
        None
    } else {
        either(
            first_missing_in_entities(paths, scope, ents.drop_last()),
            match ents.last().supertype_of {
                Some(x) => match first_missing(x, paths, scope) {
                    Some(n) => Some((n, scope)),
                    None => None,
                },
                None => None,
            },
        )
    }
}

/// The first unresolved name of the `SUPERTYPE OF` expressions, schema by schema.
pub open spec fn first_missing_in_schemas(paths: Seq<PathView>, schemas: Seq<SchemaDecl>) -> Option<(Seq<char>, Seq<StepView>)>
    decreases schemas.len(),
{
    if schemas.len() == 0 {
        None
    } else {
        either(
            first_missing_in_schemas(paths, schemas.drop_last()),
            first_missing_in_entities(paths, schema_scope(schemas.last().name@), schemas.last().entities@),
        )
    }
}

proof fn lemma_entities_prefix(paths: Seq<PathView>, scope: Seq<StepView>, ents: Seq<EntityDecl>, m: int)
    requires
        0 <= m <= ents.len(),
        first_missing_in_entities(paths, scope, ents.take(m)) is Some,
    ensures
        first_missing_in_entities(paths, scope, ents) == first_missing_in_entities(paths, scope, ents.take(m)),
    decreases ents.len() - m,
{
    if m < ents.len() {
        assert(ents.take(m + 1).drop_last() =~= ents.take(m));
        lemma_entities_prefix(paths, scope, ents, m + 1);
    } else {
        assert(ents.take(m) =~= ents);
    }
}

proof fn lemma_schemas_prefix(paths: Seq<PathView>, schemas: Seq<SchemaDecl>, m: int)
    requires
        0 <= m <= schemas.len(),
        first_missing_in_schemas(paths, schemas.take(m)) is Some,
    ensures
        first_missing_in_schemas(paths, schemas) == first_missing_in_schemas(paths, schemas.take(m)),
    decreases schemas.len() - m,
{
    if m < schemas.len() {
        assert(schemas.take(m + 1).drop_last() =~= schemas.take(m));
        lemma_schemas_prefix(paths, schemas, m + 1);
    } else {
        assert(schemas.take(m) =~= schemas);
    }
}

/// Entity `k` of schema `i` has a `SUPERTYPE OF` clause.
pub open spec fn has_clause(schemas: Seq<SchemaDecl>, i: int, k: int) -> bool {
    0 <= i < schemas.len() && 0 <= k < schemas[i].entities@.len() && schemas[i].entities@[k].supertype_of is Some
}

/// The path of entity `k` of schema `i`.
pub open spec fn clause_path(schemas: Seq<SchemaDecl>, i: int, k: int) -> PathView {
    PathView { scope: schema_scope(schemas[i].name@), kind: ScopeType::Entity, name: schemas[i].entities@[k].name@ }
}

pub open spec fn schemas_resolve(paths: Seq<PathView>, schemas: Seq<SchemaDecl>) -> bool {
    forall|i: int|
        0 <= i < schemas.len() ==> entities_resolve(
            paths,
            schema_scope(#[trigger] schemas[i].name@),
            schemas[i].entities@,
        )
}

pub open spec fn rows_view(v: Seq<(Path, Vec<Vec<Path>>)>) -> Seq<RowView> {
    v.map_values(|r: (Path, Vec<Vec<Path>>)| (r.0@, bundle_views(r.1@)))
}

/// For each supertype with a `SUPERTYPE OF` clause, the bundles of concrete subtypes
/// that one instance may be at once.
#[derive(Debug, PartialEq, Eq)]
pub struct Constraints {
    pub instantiables: Vec<(Path, Vec<Vec<Path>>)>,
}

impl View for Constraints {
    type V = Seq<RowView>;

    open spec fn view(&self) -> Seq<RowView> {
        rows_view(self.instantiables@)
    }
}

impl Constraints {
    /// No two entries have the same supertype path: the table is a mapping.
    pub open spec fn keys_unique(&self) -> bool {
        forall|a: int, b: int| 0 <= a < b < self@.len() ==> self@[a].0 != self@[b].0
    }

    /// The table of a syntax tree whose declarations `ns` holds. The first name, in
    /// source order, that does not resolve is reported; two entries for one path are
    /// refused.
    pub fn new(ns: &Namespace, st: &SyntaxTree) -> (r: Result<Constraints, SemanticError>)
        ensures
            match r {
                Ok(c) => schemas_resolve(ns@, st.schemas@) && c@ == schema_rows(ns@, st.schemas@)
                    && c.keys_unique(),
                Err(SemanticError::DuplicateDeclaration(p)) => exists|i1: int, k1: int, i2: int, k2: int|
                    has_clause(st.schemas@, i1, k1) && has_clause(st.schemas@, i2, k2) && (i1 != i2 || k1 != k2)
                        && clause_path(st.schemas@, i1, k1) == p@ && clause_path(st.schemas@, i2, k2) == p@,
                Err(SemanticError::UnresolvedName { name, scope }) => !schemas_resolve(ns@, st.schemas@)
                    && first_missing_in_schemas(ns@, st.schemas@) == Some((name@, scope@)),
                Err(_) => false,
            },
    {
        let mut rows: Vec<(Path, Vec<Vec<Path>>)> = Vec::new();
        let root = Scope::root();
        let mut i: usize = 0;
        while i < st.schemas.len()
            invariant
                i <= st.schemas@.len(),
                root@ == Seq::<StepView>::empty(),
                rows_view(rows@) == schema_rows(ns@, st.schemas@.take(i as int)),
                forall|a: int, b: int| 0 <= a < b < rows@.len() ==> rows@[a].0@ != rows@[b].0@,
                forall|j: int| 0 <= j < rows@.len() ==> exists|i1: int, k1: int|
                    has_clause(st.schemas@, i1, k1) && i1 < i && clause_path(st.schemas@, i1, k1) == #[trigger] rows@[j].0@,
                schemas_resolve(ns@, st.schemas@.take(i as int)),
                first_missing_in_schemas(ns@, st.schemas@.take(i as int)) is None,
            decreases st.schemas@.len() - i,
        {
            let schema = &st.schemas[i];
            let scope = root.schema(schema.name.as_str());
            assert(scope@ =~= schema_scope(schema.name@));
            let ghost before = rows_view(rows@);
            proof {
                assert forall|j: int| 0 <= j < rows@.len() implies exists|i1: int, k1: int|
                    has_clause(st.schemas@, i1, k1) && (i1 < i || (i1 == i && k1 < 0)) && clause_path(
                        st.schemas@,
                        i1,
                        k1,
                    ) == #[trigger] rows@[j].0@ by {
                    let (i1, k1) = choose|i1: int, k1: int|
                        has_clause(st.schemas@, i1, k1) && i1 < i && clause_path(st.schemas@, i1, k1) == #[trigger] rows@[j].0@;
                    assert(has_clause(st.schemas@, i1, k1) && (i1 < i || (i1 == i && k1 < 0)) && clause_path(st.schemas@, i1, k1) == rows@[j].0@);
                }
            }
            let mut k: usize = 0;
            while k < schema.entities.len()
                invariant
                    i < st.schemas@.len(),
                    schema == st.schemas@[i as int],
                    k <= schema.entities@.len(),
                    scope@ == schema_scope(schema.name@),
                    rows_view(rows@) == before + entity_rows(ns@, scope@, schema.entities@.take(k as int)),
                    forall|a: int, b: int| 0 <= a < b < rows@.len() ==> rows@[a].0@ != rows@[b].0@,
                    forall|j: int| 0 <= j < rows@.len() ==> exists|i1: int, k1: int|
                        has_clause(st.schemas@, i1, k1) && (i1 < i || (i1 == i && k1 < k)) && clause_path(
                            st.schemas@,
                            i1,
                            k1,
                        ) == #[trigger] rows@[j].0@,
                    entities_resolve(ns@, scope@, schema.entities@.take(k as int)),
                    first_missing_in_schemas(ns@, st.schemas@.take(i as int)) is None,
                    first_missing_in_entities(ns@, scope@, schema.entities@.take(k as int)) is None,
                decreases schema.entities@.len() - k,
            {
                let entity = &schema.entities[k];
                let ghost ents = schema.entities@.take(k + 1);
                proof {
                    assert(ents.drop_last() =~= schema.entities@.take(k as int));
                    assert(ents.last() == *entity);
                }
                match &entity.supertype_of {
                    Some(expr) => {
                        match expand_exec(ns, &scope, expr) {
                            Ok(indices) => {
                                let bundles = to_paths(ns, &indices);
                                let path = Path::new(&scope, ScopeType::Entity, entity.name.as_str());
                                proof {
                                    assert(schema.entities@[k as int] == *entity);
                                    assert(has_clause(st.schemas@, i as int, k as int));
                                    assert(clause_path(st.schemas@, i as int, k as int) == path@);
                                }
                                let mut j: usize = 0;
                                while j < rows.len()
                                    invariant
                                        j <= rows@.len(),
                                        forall|x: int| 0 <= x < j ==> rows@[x].0@ != path@,
                                        has_clause(st.schemas@, i as int, k as int),
                                        clause_path(st.schemas@, i as int, k as int) == path@,
                                        forall|x: int| 0 <= x < rows@.len() ==> exists|i1: int, k1: int|
                                            has_clause(st.schemas@, i1, k1) && (i1 < i || (i1 == i && k1 < k))
                                                && clause_path(st.schemas@, i1, k1) == #[trigger] rows@[x].0@,
                                    decreases rows@.len() - j,
                                {
                                    if rows[j].0.same_as(&path) {
                                        proof {
                                            assert(rows@[j as int].0@ == path@);
                                            let (i1, k1) = choose|i1: int, k1: int|
                                                has_clause(st.schemas@, i1, k1) && (i1 < i || (i1 == i && k1 < k))
                                                    && clause_path(st.schemas@, i1, k1) == #[trigger] rows@[j as int].0@;
                                            assert(has_clause(st.schemas@, i1, k1) && has_clause(st.schemas@, i as int, k as int)
                                                && (i1 != i || k1 != k) && clause_path(st.schemas@, i1, k1) == path@
                                                && clause_path(st.schemas@, i as int, k as int) == path@);
                                        }
                                        return Err(SemanticError::DuplicateDeclaration(path));
                                    }
                                    j = j + 1;
                                }
                                let ghost prev = rows@;
                                rows.push((path, bundles));
                                proof {
                                    assert(rows@ == prev.push(rows@.last()));
                                    assert(rows_view(rows@) =~= rows_view(prev).push((path@, bundle_views(bundles@))));
                                    assert(rows@[prev.len() as int].0@ == path@);
                                    assert forall|x: int| 0 <= x < prev.len() implies #[trigger] rows@[x] == prev[x] by {}
                                }
                            },
                            Err(err) => {
                                proof {
                                    assert(!entities_resolve(ns@, scope@, schema.entities@)) by {
                                        assert(schema.entities@[k as int] == *entity);
                                    }
                                    assert(st.schemas@[i as int] == *schema);
                                    let ex = entity.supertype_of->Some_0;
                                    assert(first_missing_in_entities(ns@, scope@, ents) is Some);
                                    lemma_entities_prefix(ns@, scope@, schema.entities@, k + 1);
                                    let pre = st.schemas@.take(i + 1);
                                    assert(pre.drop_last() =~= st.schemas@.take(i as int));
                                    assert(pre.last() == *schema);
                                    assert(first_missing_in_schemas(ns@, pre) == first_missing_in_entities(
                                        ns@,
                                        scope@,
                                        schema.entities@,
                                    ));
                                    lemma_schemas_prefix(ns@, st.schemas@, i + 1);
                                }
                                return Err(err);
                            },
                        }
                    },
                    None => {},
                }
                proof {
                    assert forall|m: int| 0 <= m < ents.len() implies match #[trigger] ents[m].supertype_of {
                        Some(x) => resolves(x, ns@, scope@),
                        None => true,
                    } by {
                        if m < k {
                            assert(ents[m] == schema.entities@.take(k as int)[m]);
                        }
                    }
                }
                k = k + 1;
            }
            proof {
                assert forall|j: int| 0 <= j < rows@.len() implies exists|i1: int, k1: int|
                    has_clause(st.schemas@, i1, k1) && i1 < i + 1 && clause_path(st.schemas@, i1, k1)
                        == #[trigger] rows@[j].0@ by {
                    let (i1, k1) = choose|i1: int, k1: int|
                        has_clause(st.schemas@, i1, k1) && (i1 < i || (i1 == i && k1 < schema.entities@.len()))
                            && clause_path(st.schemas@, i1, k1) == #[trigger] rows@[j].0@;
                    assert(has_clause(st.schemas@, i1, k1) && i1 < i + 1 && clause_path(st.schemas@, i1, k1) == rows@[j].0@);
                }
                assert(schema.entities@.take(schema.entities@.len() as int) =~= schema.entities@);
                assert(st.schemas@.take(i + 1).drop_last() =~= st.schemas@.take(i as int));
                assert(st.schemas@.take(i + 1).last() == *schema);
                assert forall|m: int| 0 <= m < i + 1 implies entities_resolve(
                    ns@,
                    schema_scope(#[trigger] st.schemas@.take(i + 1)[m].name@),
                    st.schemas@.take(i + 1)[m].entities@,
                ) by {
                    if m < i {
                        assert(st.schemas@.take(i + 1)[m] == st.schemas@.take(i as int)[m]);
                    }
                }
            }
            i = i + 1;
        }
        proof {
            assert(st.schemas@.take(st.schemas@.len() as int) =~= st.schemas@);
        }
        Ok(Constraints { instantiables: rows })
    }

    /// Whether the table has an entry for `path`.
    pub fn is_supertype(&self, path: &Path) -> (r: bool)
        ensures
            r == exists|j: int| 0 <= j < self@.len() && (#[trigger] self@[j]).0 == path@,
    {
        let mut j: usize = 0;
        while j < self.instantiables.len()
            invariant
                j <= self.instantiables@.len(),
                forall|m: int| 0 <= m < j ==> (#[trigger] self@[m]).0 != path@,
            decreases self.instantiables@.len() - j,
        {
            if self.instantiables[j].0.same_as(path) {
                assert(self@[j as int].0 == path@);
                return true;
            }
            j = j + 1;
        }
        false
    }
}

} // verus!
