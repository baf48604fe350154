//! Scoped names of EXPRESS declarations and their resolution.
use crate::ast::{SchemaDecl, SyntaxTree};
use vstd::prelude::*;
use vstd::string::StringExecFns;

verus! {

/// The kind of a declaration that opens a scope or is named in one.
#[derive(Clone, Copy, Debug, PartialEq, Eq, Hash, Structural)]
pub enum ScopeType {
    Schema,
    Entity,
    Type,
    Function,
    Procedure,
    Rule,
}

/// One step of a scope: the kind and name of the enclosing declaration.
pub type StepView = (ScopeType, Seq<char>);

/// A scope: the declarations that enclose a point, outermost first.
#[derive(Clone, Debug, PartialEq, Eq, Hash)]
pub struct Scope {
    pub steps: Vec<(ScopeType, String)>,
}

impl View for Scope {
    type V = Seq<StepView>;

    open spec fn view(&self) -> Seq<StepView> {
        self.steps@.map_values(|st: (ScopeType, String)| (st.0, st.1@))
    }
}

/// A declaration: the scope it stands in, its kind and its name.
#[derive(Clone, Debug, PartialEq, Eq, Hash)]
pub struct Path {
    pub scope: Scope,
    pub kind: ScopeType,
    pub name: String,
}

pub struct PathView {
    pub scope: Seq<StepView>,
    pub kind: ScopeType,
    pub name: Seq<char>,
}

impl View for Path {
    type V = PathView;

    open spec fn view(&self) -> PathView {
        PathView { scope: self.scope@, kind: self.kind, name: self.name@ }
    }
}

/// An owned copy of `s`.
pub(crate) fn text_of(s: &str) -> (r: String)
    ensures
        r@ == s@,
{
    String::from_str(s)
}

impl Scope {
    /// The scope outside every schema.
    pub fn root() -> (r: Scope)
        ensures
            r@ == Seq::<StepView>::empty(),
    {
        let r = Scope { steps: Vec::new() };
        assert(r@ =~= Seq::<StepView>::empty());
        r
    }

    /// A copy of this scope.
    pub fn duplicate(&self) -> (r: Scope)
        ensures
            r@ == self@,
    {
        let mut steps: Vec<(ScopeType, String)> = Vec::new();
        let mut k: usize = 0;
        while k < self.steps.len()
            invariant
                k <= self.steps@.len(),
                steps@.len() == k,
                forall|m: int| 0 <= m < k ==> (#[trigger] steps@[m]).0 == self.steps@[m].0
                    && steps@[m].1@ == self.steps@[m].1@,
            decreases self.steps@.len() - k,
        {
            let (kind, name) = (self.steps[k].0, self.steps[k].1.clone());
            steps.push((kind, name));
            k = k + 1;
        }
        let r = Scope { steps };
        assert(r@ =~= self@);
        r
    }

    /// This scope with one more step inside it.
    pub fn pushed(&self, kind: ScopeType, name: &str) -> (r: Scope)
        ensures
            r@ == self@.push((kind, name@)),
    {
        let mut r = self.duplicate();
        r.steps.push((kind, text_of(name)));
        assert(r@ =~= self@.push((kind, name@)));
        r
    }

    /// The scope of the schema named `name`, under this one.
    pub fn schema(&self, name: &str) -> (r: Scope)
        ensures
            r@ == self@.push((ScopeType::Schema, name@)),
    {
        self.pushed(ScopeType::Schema, name)
    }

    /// Whether two scopes have the same steps.
    pub fn same_as(&self, other: &Scope) -> (r: bool)
        ensures
            r == (self@ == other@),
    {
        if self.steps.len() != other.steps.len() {
            proof {
                assert(self@.len() != other@.len());
            }
            return false;
        }
        let mut k: usize = 0;
        while k < self.steps.len()
            invariant
                self.steps@.len() == other.steps@.len(),
                k <= self.steps@.len(),
                forall|m: int| 0 <= m < k ==> self@[m] == other@[m],
            decreases self.steps@.len() - k,
        {
            if self.steps[k].0 != other.steps[k].0 || self.steps[k].1 != other.steps[k].1 {
                proof {
                    assert(self@[k as int] != other@[k as int]);
                }
                return false;
            }
            k = k + 1;
        }
        assert(self@ =~= other@);
        true
    }
}

impl Path {
    pub fn new(scope: &Scope, kind: ScopeType, name: &str) -> (r: Path)
        ensures
            r@ == (PathView { scope: scope@, kind, name: name@ }),
    {
        Path { scope: scope.duplicate(), kind, name: text_of(name) }
    }

    /// The entity named `name` in `scope`.
    pub fn entity(scope: &Scope, name: &str) -> (r: Path)
        ensures
            r@ == (PathView { scope: scope@, kind: ScopeType::Entity, name: name@ }),
    {
        Path::new(scope, ScopeType::Entity, name)
    }

    /// A copy of this path.
    pub fn duplicate(&self) -> (r: Path)
        ensures
            r@ == self@,
    {
        Path { scope: self.scope.duplicate(), kind: self.kind, name: self.name.clone() }
    }

    /// Whether two paths name the same declaration.
    pub fn same_as(&self, other: &Path) -> (r: bool)
        ensures
            r == (self@ == other@),
    {
        self.kind == other.kind && self.name == other.name && self.scope.same_as(&other.scope)
    }
}

/// The first declaration from index `j` on that stands directly in `scope` under `name`.
pub open spec fn find_from(paths: Seq<PathView>, scope: Seq<StepView>, name: Seq<char>, j: int) -> Option<int>
    decreases paths.len() - j,
{
    if j < 0 || j >= paths.len() {
        None
    } else if paths[j].scope == scope && paths[j].name == name {
        Some(j)
    } else {
        find_from(paths, scope, name, j + 1)
    }
}

/// Resolution of an unqualified name: look in `scope`, then in each enclosing scope
/// in turn; the first hit wins.
pub open spec fn resolve_spec(paths: Seq<PathView>, scope: Seq<StepView>, name: Seq<char>) -> Option<int>
    decreases scope.len(),
{
    match find_from(paths, scope, name, 0) {
        Some(j) => Some(j),
        None => if scope.len() == 0 {
            None
        } else {
            resolve_spec(paths, scope.drop_last(), name)
        },
    }
}

/// Errors of the namespace and of the analyses built on it.
#[derive(Clone, Debug, PartialEq, Eq)]
pub enum SemanticError {
    /// Two declarations share one path.
    DuplicateDeclaration(Path),
    /// A name is declared nowhere on the way out of a scope.
    UnresolvedName { name: String, scope: Scope },
    /// Following `SUBTYPE OF` from some entity leads back to it.
    CyclicInheritance,
    /// An aggregate type whose lower bound exceeds its upper bound.
    InvalidBound { lower: u64, upper: u64 },
    /// A type that does not follow the type syntax.
    MalformedType,
    /// Two attributes of one entity share a name.
    DuplicateAttribute { name: String },
}

/// The declarations of a syntax tree, each with an absolute path; a declaration is
/// referred to by its index.
#[derive(Clone, Debug, PartialEq, Eq)]
pub struct Namespace {
    pub paths: Vec<Path>,
}

impl View for Namespace {
    type V = Seq<PathView>;

    open spec fn view(&self) -> Seq<PathView> {
        path_views(self.paths@)
    }
}

pub open spec fn path_views(s: Seq<Path>) -> Seq<PathView> {
    s.map_values(|q: Path| q@)
}

pub open spec fn distinct(paths: Seq<PathView>) -> bool {
    forall|a: int, b: int| 0 <= a < b < paths.len() ==> paths[a] != paths[b]
}

impl Namespace {
    /// A namespace over the given declarations; refused where two share a path.
    pub fn from_paths(paths: Vec<Path>) -> (r: Result<Namespace, SemanticError>)
        ensures
            match r {
                Ok(ns) => ns.paths@ == paths@ && distinct(ns@),
                Err(SemanticError::DuplicateDeclaration(p)) => !distinct(
                    path_views(paths@),
                ) && exists|a: int, b: int|
                    0 <= a < b < paths@.len() && paths@[a]@ == p@ && paths@[b]@ == p@,
                Err(_) => false,
            },
    {
        let ghost view = path_views(paths@);
        let mut b: usize = 0;
        while b < paths.len()
            invariant
                b <= paths@.len(),
                view == path_views(paths@),
                forall|x: int, y: int| 0 <= x < y < b ==> view[x] != view[y],
            decreases paths@.len() - b,
        {
            let mut a: usize = 0;
            while a < b
                invariant
                    a <= b < paths@.len(),
                    view == path_views(paths@),
                    forall|x: int, y: int| 0 <= x < y < b ==> view[x] != view[y],
                    forall|x: int| 0 <= x < a ==> view[x] != view[b as int],
                decreases b - a,
            {
                if paths[a].same_as(&paths[b]) {
                    let p = paths[b].duplicate();
                    proof {
                        assert(view[a as int] == view[b as int]);
                    }
                    return Err(SemanticError::DuplicateDeclaration(p));
                }
                a = a + 1;
            }
            b = b + 1;
        }
        let ns = Namespace { paths };
        proof {
            assert(ns@ =~= view);
        }
        Ok(ns)
    }

    /// The index of the first declaration from `j` on directly in `scope` under `name`.
    fn find(&self, scope: &Scope, name: &String) -> (r: Option<usize>)
        ensures
            r matches Some(j) ==> j < self.paths@.len(),
            match r {
                Some(j) => find_from(self@, scope@, name@, 0) == Some(j as int),
                None => find_from(self@, scope@, name@, 0) is None,
            },
    {
        let mut j: usize = 0;
        while j < self.paths.len()
            invariant
                j <= self.paths@.len(),
                find_from(self@, scope@, name@, 0) == find_from(self@, scope@, name@, j as int),
            decreases self.paths@.len() - j,
        {
            let p = &self.paths[j];
            if p.scope.same_as(scope) && p.name == *name {
                return Some(j);
            }
            j = j + 1;
        }
        None
    }

    /// Resolves `name` from `scope` outward to the index of its declaration.
    pub fn resolve_index(&self, scope: &Scope, name: &str) -> (r: Option<usize>)
        ensures
            r matches Some(j) ==> j < self.paths@.len(),
            match r {
                Some(j) => resolve_spec(self@, scope@, name@) == Some(j as int),
                None => resolve_spec(self@, scope@, name@) is None,
            },
    {
        let wanted = text_of(name);
        let mut here = scope.duplicate();
        loop
            invariant
                wanted@ == name@,
                resolve_spec(self@, scope@, name@) == resolve_spec(self@, here@, name@),
            decreases here@.len(),
        {
            match self.find(&here, &wanted) {
                Some(j) => {
                    return Some(j);
                },
                None => {
                    if here.steps.len() == 0 {
                        return None;
                    }
                    let ghost prev = here@;
                    here.steps.pop();
                    proof {
                        assert(here@ =~= prev.drop_last());
                    }
                },
            }
        }
    }
}

/// A name that resolves from a scope resolves to the same declaration from every
/// scope nested inside it, as long as none of the scopes in between declares it again.
pub proof fn resolve_stable_inward(
    paths: Seq<PathView>,
    scope: Seq<StepView>,
    inner: Seq<StepView>,
    name: Seq<char>,
)
    requires
        resolve_spec(paths, scope, name) is Some,
        forall|k: int|
            1 <= k <= inner.len() ==> #[trigger] find_from(paths, scope + inner.take(k), name, 0) is None,
    ensures
        resolve_spec(paths, scope + inner, name) == resolve_spec(paths, scope, name),
    decreases inner.len(),
{
    if inner.len() == 0 {
        assert(scope + inner =~= scope);
    } else {
        let shorter = inner.drop_last();
        assert((scope + inner).drop_last() =~= scope + shorter);
        assert(inner.take(inner.len() as int) =~= inner);
        assert(find_from(paths, scope + inner.take(inner.len() as int), name, 0) is None);
        assert forall|k: int| 1 <= k <= shorter.len() implies #[trigger] find_from(
            paths,
            scope + shorter.take(k),
            name,
            0,
        ) is None by {
            assert(shorter.take(k) =~= inner.take(k));
            assert(find_from(paths, scope + inner.take(k), name, 0) is None);
        }
        resolve_stable_inward(paths, scope, shorter, name);
    }
}

/// The scope of the schema named `name`.
pub open spec fn schema_scope(name: Seq<char>) -> Seq<StepView> {
    seq![(ScopeType::Schema, name)]
}

/// The paths that one schema declares: its entities, then its types, in source order.
pub open spec fn schema_paths(s: SchemaDecl) -> Seq<PathView> {
    let scope = schema_scope(s.name@);
    s.entities@.map_values(|e: crate::ast::EntityDecl| PathView { scope, kind: ScopeType::Entity, name: e.name@ })
        + s.types@.map_values(|d: crate::ast::TypeDecl| PathView { scope, kind: ScopeType::Type, name: d.name@ })
}

/// The paths that a sequence of schemas declares, schema by schema.
pub open spec fn declared_paths(schemas: Seq<SchemaDecl>) -> Seq<PathView>
    decreases schemas.len(),
{
    if schemas.len() == 0 {
        Seq::empty()
    } else {
        declared_paths(schemas.drop_last()) + schema_paths(schemas.last())
    }
}

impl Namespace {
    /// The namespace of a syntax tree: every entity and type under the path of its
    /// schema, indexed in source order.
    pub fn new(st: &SyntaxTree) -> (r: Result<Namespace, SemanticError>)
        ensures
            match r {
                Ok(ns) => ns@ == declared_paths(st.schemas@) && distinct(ns@),
                Err(SemanticError::DuplicateDeclaration(p)) => exists|a: int, b: int|
                    0 <= a < b < declared_paths(st.schemas@).len()
                        && declared_paths(st.schemas@)[a] == p@
                        && declared_paths(st.schemas@)[b] == p@,
                Err(_) => false,
            },
    {
        let mut paths: Vec<Path> = Vec::new();
        let mut i: usize = 0;
        while i < st.schemas.len()
            invariant
                i <= st.schemas@.len(),
                path_views(paths@) == declared_paths(st.schemas@.take(i as int)),
            decreases st.schemas@.len() - i,
        {
            let schema = &st.schemas[i];
            let scope = Scope::root().schema(schema.name.as_str());
            let ghost before = path_views(paths@);
            let ghost sp = schema_paths(*schema);
            assert(sp.len() == schema.entities@.len() + schema.types@.len());
            let mut k: usize = 0;
            while k < schema.entities.len()
                invariant
                    k <= schema.entities@.len(),
                    scope@ == schema_scope(schema.name@),
                    path_views(paths@) == before + sp.take(k as int),
                    sp == schema_paths(*schema),
                    sp.len() == schema.entities@.len() + schema.types@.len(),
                decreases schema.entities@.len() - k,
            {
                let ghost prev = paths@;
                paths.push(Path::new(&scope, ScopeType::Entity, schema.entities[k].name.as_str()));
                assert(sp[k as int] == paths@.last()@);
                assert(path_views(paths@) =~= before + sp.take(k + 1)) by {
                    assert(path_views(prev) == before + sp.take(k as int));
                    assert(paths@ == prev.push(paths@.last()));
                    let lhs = path_views(paths@);
                    let rhs = before + sp.take(k + 1);
                    assert(lhs.len() == prev.len() + 1);
                    assert(path_views(prev).len() == prev.len());
                    assert(sp.take(k + 1).len() == k + 1);
                    assert(lhs.len() == rhs.len());
                    assert forall|m: int| 0 <= m < lhs.len() implies lhs[m] == rhs[m] by {
                        if m < prev.len() {
                            assert(lhs[m] == path_views(prev)[m]);
                        }
                    }
                }
                k = k + 1;
            }
            let n = schema.entities.len();
            let mut k: usize = 0;
            while k < schema.types.len()
                invariant
                    k <= schema.types@.len(),
                    n == schema.entities@.len(),
                    scope@ == schema_scope(schema.name@),
                    path_views(paths@) == before + sp.take(n + k),
                    sp == schema_paths(*schema),
                    sp.len() == schema.entities@.len() + schema.types@.len(),
                decreases schema.types@.len() - k,
            {
                let ghost prev = paths@;
                paths.push(Path::new(&scope, ScopeType::Type, schema.types[k].name.as_str()));
                assert(sp[n + k] == paths@.last()@);
                assert(path_views(paths@) =~= before + sp.take(n + k + 1)) by {
                    assert(path_views(prev) == before + sp.take(n + k));
                    assert(paths@ == prev.push(paths@.last()));
                    let lhs = path_views(paths@);
                    let rhs = before + sp.take(n + k + 1);
                    assert(lhs.len() == prev.len() + 1);
                    assert(path_views(prev).len() == prev.len());
                    assert(sp.take(n + k + 1).len() == n + k + 1);
                    assert(lhs.len() == rhs.len());
                    assert forall|m: int| 0 <= m < lhs.len() implies lhs[m] == rhs[m] by {
                        if m < prev.len() {
                            assert(lhs[m] == path_views(prev)[m]);
                        }
                    }
                }
                k = k + 1;
            }
            assert(sp.take(sp.len() as int) =~= sp);
            assert(st.schemas@.take(i + 1).drop_last() =~= st.schemas@.take(i as int));
            i = i + 1;
        }
        assert(st.schemas@.take(st.schemas@.len() as int) =~= st.schemas@);
        let ghost pv = path_views(paths@);
        assert(forall|a: int| 0 <= a < paths@.len() ==> #[trigger] paths@[a]@ == pv[a]);
        let r = Namespace::from_paths(paths);
        proof {
            if r is Ok {
                assert(r->Ok_0@ =~= pv);
            }
        }
        r
    }
}

} // verus!
