//! A reader for EXPRESS schemas: entity and type declarations.
//!
//! schema_decl = SCHEMA name `;` { entity_decl | type_decl } END_SCHEMA `;` .
//! entity_decl = ENTITY name [ SUPERTYPE OF `(` supertype_expression `)` ]
//!               [ SUBTYPE OF `(` name { `,` name } `)` ] `;`
//!               { name `:` [ OPTIONAL ] type `;` } [ derive_clause ] END_ENTITY `;` .
//! type_decl = TYPE name `=` type `;` END_TYPE `;` .
//!
//! Keywords are written in capitals; types are kept as the text written.
use crate::ast::{AttributeDecl, EntityDecl, SchemaDecl, SuperTypeExpr, SyntaxTree, TypeDecl};
use crate::chars::{chars_of, collect_range, scan_run, CharClass};
use crate::derive::{
    derive_clause_spec, find_char, scan_derive_clause, scan_find_char, scan_trim_back, trim_back,
    DeriveClause, DerivedAttributeView,
};
use crate::ir::name_views;
use crate::supertype::{
    expr_spec, expr_view, keyword_at, scan_keyword_at, scan_supertype_expression, scan_word,
    word_spec, ExprView,
};
use crate::token::{at, gap, map_scan, Scan, TokenError};
use vstd::prelude::*;

verus! {

pub struct AttrView {
    pub name: Seq<char>,
    pub optional: bool,
    pub ty: Seq<char>,
}

pub struct EntityView {
    pub name: Seq<char>,
    pub supertype_of: Option<ExprView>,
    pub subtype_of: Seq<Seq<char>>,
    pub attributes: Seq<AttrView>,
    pub derive: Option<Seq<DerivedAttributeView>>,
}

pub struct TypeView {
    pub name: Seq<char>,
    pub underlying: Seq<char>,
}

pub struct SchemaView {
    pub name: Seq<char>,
    pub entities: Seq<EntityView>,
    pub types: Seq<TypeView>,
}

pub open spec fn attr_view(a: AttributeDecl) -> AttrView {
    AttrView { name: a.name@, optional: a.optional, ty: a.ty@ }
}

pub open spec fn attr_views(v: Seq<AttributeDecl>) -> Seq<AttrView> {
    v.map_values(|a: AttributeDecl| attr_view(a))
}

pub open spec fn entity_view(e: EntityDecl) -> EntityView {
    EntityView {
        name: e.name@,
        supertype_of: match e.supertype_of {
            Some(x) => Some(expr_view(&x)),
            None => None,
        },
        subtype_of: name_views(e.subtype_of@),
        attributes: attr_views(e.attributes@),
        derive: match e.derive {
            Some(d) => Some(d@),
            None => None,
        },
    }
}

pub open spec fn entity_views(v: Seq<EntityDecl>) -> Seq<EntityView> {
    v.map_values(|e: EntityDecl| entity_view(e))
}

pub open spec fn type_views(v: Seq<TypeDecl>) -> Seq<TypeView> {
    v.map_values(|d: TypeDecl| TypeView { name: d.name@, underlying: d.underlying@ })
}

pub open spec fn schema_view(s: SchemaDecl) -> SchemaView {
    SchemaView { name: s.name@, entities: entity_views(s.entities@), types: type_views(s.types@) }
}

pub open spec fn schema_views(v: Seq<SchemaDecl>) -> Seq<SchemaView> {
    v.map_values(|s: SchemaDecl| schema_view(s))
}

/// The keywords of the schema syntax, as characters.
pub struct Words {
    pub schema: Vec<char>,
    pub end_schema: Vec<char>,
    pub entity: Vec<char>,
    pub end_entity: Vec<char>,
    pub supertype: Vec<char>,
    pub subtype: Vec<char>,
    pub of: Vec<char>,
    pub optional: Vec<char>,
    pub derive: Vec<char>,
    pub type_: Vec<char>,
    pub end_type: Vec<char>,
}

pub open spec fn w_schema() -> Seq<char> { seq!['S', 'C', 'H', 'E', 'M', 'A'] }
pub open spec fn w_end_schema() -> Seq<char> { seq!['E', 'N', 'D', '_', 'S', 'C', 'H', 'E', 'M', 'A'] }
pub open spec fn w_entity() -> Seq<char> { seq!['E', 'N', 'T', 'I', 'T', 'Y'] }
pub open spec fn w_end_entity() -> Seq<char> { seq!['E', 'N', 'D', '_', 'E', 'N', 'T', 'I', 'T', 'Y'] }
pub open spec fn w_supertype() -> Seq<char> { seq!['S', 'U', 'P', 'E', 'R', 'T', 'Y', 'P', 'E'] }
pub open spec fn w_subtype() -> Seq<char> { seq!['S', 'U', 'B', 'T', 'Y', 'P', 'E'] }
pub open spec fn w_of() -> Seq<char> { seq!['O', 'F'] }
pub open spec fn w_optional() -> Seq<char> { seq!['O', 'P', 'T', 'I', 'O', 'N', 'A', 'L'] }
pub open spec fn w_derive() -> Seq<char> { seq!['D', 'E', 'R', 'I', 'V', 'E'] }
pub open spec fn w_type() -> Seq<char> { seq!['T', 'Y', 'P', 'E'] }
pub open spec fn w_end_type() -> Seq<char> { seq!['E', 'N', 'D', '_', 'T', 'Y', 'P', 'E'] }

impl Words {
    pub open spec fn wf(&self) -> bool {
        &&& self.schema@ == w_schema()
        &&& self.end_schema@ == w_end_schema()
        &&& self.entity@ == w_entity()
        &&& self.end_entity@ == w_end_entity()
        &&& self.supertype@ == w_supertype()
        &&& self.subtype@ == w_subtype()
        &&& self.of@ == w_of()
        &&& self.optional@ == w_optional()
        &&& self.derive@ == w_derive()
        &&& self.type_@ == w_type()
        &&& self.end_type@ == w_end_type()
    }

    pub fn new() -> (r: Words)
        ensures
            r.wf(),
    {
        let r = Words {
            schema: vec!['S', 'C', 'H', 'E', 'M', 'A'],
            end_schema: vec!['E', 'N', 'D', '_', 'S', 'C', 'H', 'E', 'M', 'A'],
            entity: vec!['E', 'N', 'T', 'I', 'T', 'Y'],
            end_entity: vec!['E', 'N', 'D', '_', 'E', 'N', 'T', 'I', 'T', 'Y'],
            supertype: vec!['S', 'U', 'P', 'E', 'R', 'T', 'Y', 'P', 'E'],
            subtype: vec!['S', 'U', 'B', 'T', 'Y', 'P', 'E'],
            of: vec!['O', 'F'],
            optional: vec!['O', 'P', 'T', 'I', 'O', 'N', 'A', 'L'],
            derive: vec!['D', 'E', 'R', 'I', 'V', 'E'],
            type_: vec!['T', 'Y', 'P', 'E'],
            end_type: vec!['E', 'N', 'D', '_', 'T', 'Y', 'P', 'E'],
        };
        assert(r.schema@ =~= w_schema());
        assert(r.end_schema@ =~= w_end_schema());
        assert(r.entity@ =~= w_entity());
        assert(r.end_entity@ =~= w_end_entity());
        assert(r.supertype@ =~= w_supertype());
        assert(r.subtype@ =~= w_subtype());
        assert(r.of@ =~= w_of());
        assert(r.optional@ =~= w_optional());
        assert(r.derive@ =~= w_derive());
        assert(r.type_@ =~= w_type());
        assert(r.end_type@ =~= w_end_type());
        r
    }
}

/// The position after `;` that follows `j`.
pub open spec fn semicolon(s: Seq<char>, j: int) -> Option<int> {
    if at(s, gap(s, j), ';') {
        Some(gap(s, j) + 1)
    } else {
        None
    }
}

/// name { `,` name } `)` .
pub open spec fn names_spec(s: Seq<char>, i: int) -> Scan<Seq<Seq<char>>>
    decreases s.len() - i,
{
    match word_spec(s, i) {
        Some((e, w)) => {
            let j = gap(s, e);
            if at(s, j, ')') {
                Ok((j + 1, seq![w]))
            } else if at(s, j, ',') && i < j + 1 <= s.len() {
                map_scan(names_spec(s, j + 1), |ws: Seq<Seq<char>>| seq![w] + ws)
            } else {
                Err(TokenError::Mismatch)
            }
        },
        None => Err(TokenError::Mismatch),
    }
}

/// name `:` [ OPTIONAL ] type `;` .
pub open spec fn attr_spec(s: Seq<char>, i: int) -> Scan<AttrView> {
    match word_spec(s, i) {
        Some((e, w)) => {
            let q = gap(s, e);
            if !at(s, q, ':') {
                Err(TokenError::Mismatch)
            } else {
                let optional = keyword_at(s, q + 1, w_optional()) is Some;
                let t = match keyword_at(s, q + 1, w_optional()) {
                    Some(k) => k,
                    None => q + 1,
                };
                let a = gap(s, t);
                let r = find_char(s, a, ';');
                let b = trim_back(s, a, r);
                if r < s.len() && b > a {
                    Ok((r + 1, AttrView { name: w, optional, ty: s.subrange(a, b) }))
                } else {
                    Err(TokenError::Mismatch)
                }
            }
        },
        None => Err(TokenError::Mismatch),
    }
}

/// Attributes up to `DERIVE` or `END_ENTITY`, which are left unread.
pub open spec fn attrs_spec(s: Seq<char>, i: int) -> Scan<Seq<AttrView>>
    decreases s.len() - i,
{
    if keyword_at(s, i, w_end_entity()) is Some || keyword_at(s, i, w_derive()) is Some {
        Ok((i, Seq::empty()))
    } else {
        match attr_spec(s, i) {
            Ok((e, a)) => if i < e <= s.len() {
                map_scan(attrs_spec(s, e), |xs: Seq<AttrView>| seq![a] + xs)
            } else {
                Err(TokenError::Mismatch)
            },
            Err(x) => Err(x),
        }
    }
}

/// [ SUPERTYPE OF `(` supertype_expression `)` ] .
pub open spec fn supertype_clause_spec(s: Seq<char>, j: int) -> Scan<Option<ExprView>> {
    match keyword_at(s, j, w_supertype()) {
        None => Ok((j, None)),
        Some(k) => match keyword_at(s, k, w_of()) {
            Some(o) => if at(s, gap(s, o), '(') {
                match expr_spec(s, gap(s, o) + 1) {
                    Ok((e, x)) => if at(s, gap(s, e), ')') {
                        Ok((gap(s, e) + 1, Some(x)))
                    } else {
                        Err(TokenError::Mismatch)
                    },
                    Err(y) => Err(y),
                }
            } else {
                Err(TokenError::Mismatch)
            },
            None => Err(TokenError::Mismatch),
        },
    }
}

/// [ SUBTYPE OF `(` name { `,` name } `)` ] .
pub open spec fn subtype_clause_spec(s: Seq<char>, j: int) -> Scan<Seq<Seq<char>>> {
    match keyword_at(s, j, w_subtype()) {
        None => Ok((j, Seq::empty())),
        Some(k) => match keyword_at(s, k, w_of()) {
            Some(o) => if at(s, gap(s, o), '(') {
                names_spec(s, gap(s, o) + 1)
            } else {
                Err(TokenError::Mismatch)
            },
            None => Err(TokenError::Mismatch),
        },
    }
}

/// [ derive_clause ] END_ENTITY `;` , after the attributes.
pub open spec fn entity_tail_spec(s: Seq<char>, j: int) -> Scan<Option<Seq<DerivedAttributeView>>> {
    let (e, d) = if keyword_at(s, j, w_derive()) is Some {
        match derive_clause_spec(s, j) {
            Ok((e, d)) => (e, Some(Some(d))),
            Err(_) => (j, None),
        }
    } else {
        (j, Some(None))
    };
    match d {
        Some(dv) => match keyword_at(s, e, w_end_entity()) {
            Some(k) => match semicolon(s, k) {
                Some(f) => Ok((f, dv)),
                None => Err(TokenError::Mismatch),
            },
            None => Err(TokenError::Mismatch),
        },
        None => Err(TokenError::Mismatch),
    }
}

/// entity_decl
pub open spec fn entity_spec(s: Seq<char>, i: int) -> Scan<EntityView> {
    match keyword_at(s, i, w_entity()) {
        Some(a) => match word_spec(s, a) {
            Some((e1, name)) => match supertype_clause_spec(s, e1) {
                Ok((e2, sup)) => match subtype_clause_spec(s, e2) {
                    Ok((e3, subs)) => match semicolon(s, e3) {
                        Some(e4) => match attrs_spec(s, e4) {
                            Ok((e5, attrs)) => match entity_tail_spec(s, e5) {
                                Ok((e6, d)) => Ok(
                                    (
                                        e6,
                                        EntityView {
                                            name,
                                            supertype_of: sup,
                                            subtype_of: subs,
                                            attributes: attrs,
                                            derive: d,
                                        },
                                    ),
                                ),
                                Err(x) => Err(x),
                            },
                            Err(x) => Err(x),
                        },
                        None => Err(TokenError::Mismatch),
                    },
                    Err(x) => Err(x),
                },
                Err(x) => Err(x),
            },
            None => Err(TokenError::Mismatch),
        },
        None => Err(TokenError::Mismatch),
    }
}

/// type_decl
pub open spec fn type_spec(s: Seq<char>, i: int) -> Scan<TypeView> {
    match keyword_at(s, i, w_type()) {
        Some(p) => match word_spec(s, p) {
            Some((e, name)) => {
                let q = gap(s, e);
                let a = gap(s, q + 1);
                let r = find_char(s, a, ';');
                let b = trim_back(s, a, r);
                if at(s, q, '=') && r < s.len() && b > a {
                    match keyword_at(s, r + 1, w_end_type()) {
                        Some(k) => match semicolon(s, k) {
                            Some(f) => Ok((f, TypeView { name, underlying: s.subrange(a, b) })),
                            None => Err(TokenError::Mismatch),
                        },
                        None => Err(TokenError::Mismatch),
                    }
                } else {
                    Err(TokenError::Mismatch)
                }
            },
            None => Err(TokenError::Mismatch),
        },
        None => Err(TokenError::Mismatch),
    }
}

/// Declarations up to `END_SCHEMA`, which is left unread: the entities and the
/// types, each in source order.
pub open spec fn decls_spec(s: Seq<char>, i: int) -> Scan<(Seq<EntityView>, Seq<TypeView>)>
    decreases s.len() - i,
{
    if keyword_at(s, i, w_end_schema()) is Some {
        Ok((i, (Seq::empty(), Seq::empty())))
    } else if keyword_at(s, i, w_entity()) is Some {
        match entity_spec(s, i) {
            Ok((e, x)) => if i < e <= s.len() {
                map_scan(decls_spec(s, e), |d: (Seq<EntityView>, Seq<TypeView>)| (seq![x] + d.0, d.1))
            } else {
                Err(TokenError::Mismatch)
            },
            Err(y) => Err(y),
        }
    } else if keyword_at(s, i, w_type()) is Some {
        match type_spec(s, i) {
            Ok((e, x)) => if i < e <= s.len() {
                map_scan(decls_spec(s, e), |d: (Seq<EntityView>, Seq<TypeView>)| (d.0, seq![x] + d.1))
            } else {
                Err(TokenError::Mismatch)
            },
            Err(y) => Err(y),
        }
    } else {
        Err(TokenError::Mismatch)
    }
}

/// schema_decl
pub open spec fn schema_spec(s: Seq<char>, i: int) -> Scan<SchemaView> {
    match keyword_at(s, i, w_schema()) {
        Some(a) => match word_spec(s, a) {
            Some((e, name)) => match semicolon(s, e) {
                Some(b) => match decls_spec(s, b) {
                    Ok((c, d)) => match keyword_at(s, c, w_end_schema()) {
                        Some(k) => match semicolon(s, k) {
                            Some(f) => Ok((f, SchemaView { name, entities: d.0, types: d.1 })),
                            None => Err(TokenError::Mismatch),
                        },
                        None => Err(TokenError::Mismatch),
                    },
                    Err(x) => Err(x),
                },
                None => Err(TokenError::Mismatch),
            },
            None => Err(TokenError::Mismatch),
        },
        None => Err(TokenError::Mismatch),
    }
}

/// Schemas up to the end of the text, which may hold spaces after the last one.
pub open spec fn schemas_spec(s: Seq<char>, i: int) -> Scan<Seq<SchemaView>>
    decreases s.len() - i,
{
    if gap(s, i) >= s.len() {
        Ok((s.len() as int, Seq::empty()))
    } else {
        match schema_spec(s, i) {
            Ok((e, x)) => if i < e <= s.len() {
                map_scan(schemas_spec(s, e), |xs: Seq<SchemaView>| seq![x] + xs)
            } else {
                Err(TokenError::Mismatch)
            },
            Err(y) => Err(y),
        }
    }
}

/// An executable scan agrees with its spec, through the view `f`.
pub open spec fn same<T, V>(r: Result<(usize, T), TokenError>, sp: Scan<V>, f: spec_fn(T) -> V, i: int, n: int) -> bool {
    match sp {
        Ok((e, v)) => match r {
            Ok((e2, v2)) => e2 == e && f(v2) == v && i <= e <= n,
            Err(_) => false,
        },
        Err(x) => match r {
            Ok(_) => false,
            Err(y) => y == x,
        },
    }
}

fn scan_semicolon(s: &Vec<char>, j: usize) -> (r: Option<usize>)
    requires
        j <= s@.len(),
    ensures
        match semicolon(s@, j as int) {
            Some(f) => r matches Some(f2) && f2 == f && j < f <= s@.len(),
            None => r is None,
        },
{
    let q = scan_run(s, j, CharClass::Space);
    if q < s.len() && s[q] == ';' {
        Some(q + 1)
    } else {
        None
    }
}

pub(crate) fn scan_names(s: &Vec<char>, i: usize) -> (r: Result<(usize, Vec<String>), TokenError>)
    requires
        i <= s@.len(),
    ensures
        same(r, names_spec(s@, i as int), |v: Vec<String>| name_views(v@), i as int, s@.len() as int),
    decreases s@.len() - i,
{
    match scan_word(s, i) {
        Some((e, w)) => {
            let j = scan_run(s, e, CharClass::Space);
            let ghost wv = w@;
            if j < s.len() && s[j] == ')' {
                let v = vec![w];
                assert(name_views(v@) =~= seq![wv]);
                Ok((j + 1, v))
            } else if j < s.len() && s[j] == ',' {
                match scan_names(s, j + 1) {
                    Ok((e2, mut rest)) => {
                        let ghost rv = name_views(rest@);
                        let mut v = vec![w];
                        v.append(&mut rest);
                        assert(name_views(v@) =~= seq![wv] + rv);
                        Ok((e2, v))
                    },
                    Err(x) => Err(x),
                }
            } else {
                Err(TokenError::Mismatch)
            }
        },
        None => Err(TokenError::Mismatch),
    }
}

fn scan_attr(s: &Vec<char>, i: usize, w: &Words) -> (r: Result<(usize, AttributeDecl), TokenError>)
    requires
        i <= s@.len(),
        w.wf(),
    ensures
        same(r, attr_spec(s@, i as int), |a: AttributeDecl| attr_view(a), i as int, s@.len() as int),
{
    match scan_word(s, i) {
        Some((e, name)) => {
            let q = scan_run(s, e, CharClass::Space);
            if !(q < s.len() && s[q] == ':') {
                return Err(TokenError::Mismatch);
            }
            let (optional, t) = match scan_keyword_at(s, q + 1, &w.optional) {
                Some(k) => (true, k),
                None => (false, q + 1),
            };
            let a = scan_run(s, t, CharClass::Space);
            let r = scan_find_char(s, a, ';');
            let b = scan_trim_back(s, a, r);
            if r < s.len() && b > a {
                Ok((r + 1, AttributeDecl { name, optional, ty: collect_range(s, a, b) }))
            } else {
                Err(TokenError::Mismatch)
            }
        },
        None => Err(TokenError::Mismatch),
    }
}

fn scan_attrs(s: &Vec<char>, i: usize, w: &Words) -> (r: Result<(usize, Vec<AttributeDecl>), TokenError>)
    requires
        i <= s@.len(),
        w.wf(),
    ensures
        same(r, attrs_spec(s@, i as int), |v: Vec<AttributeDecl>| attr_views(v@), i as int, s@.len() as int),
    decreases s@.len() - i,
{
    if scan_keyword_at(s, i, &w.end_entity).is_some() || scan_keyword_at(s, i, &w.derive).is_some() {
        let v: Vec<AttributeDecl> = Vec::new();
        assert(attr_views(v@) =~= Seq::<AttrView>::empty());
        return Ok((i, v));
    }
    match scan_attr(s, i, w) {
        Ok((e, a)) => {
            if i < e {
                match scan_attrs(s, e, w) {
                    Ok((e2, mut rest)) => {
                        let ghost av = attr_view(a);
                        let ghost rv = attr_views(rest@);
                        let mut v = vec![a];
                        v.append(&mut rest);
                        assert(attr_views(v@) =~= seq![av] + rv);
                        Ok((e2, v))
                    },
                    Err(x) => Err(x),
                }
            } else {
                Err(TokenError::Mismatch)
            }
        },
        Err(x) => Err(x),
    }
}

pub open spec fn opt_expr_view(x: Option<SuperTypeExpr>) -> Option<ExprView> {
    match x {
        Some(e) => Some(expr_view(&e)),
        None => None,
    }
}

fn scan_supertype_clause(s: &Vec<char>, j: usize, w: &Words) -> (r: Result<(usize, Option<SuperTypeExpr>), TokenError>)
    requires
        j <= s@.len(),
        w.wf(),
    ensures
        same(r, supertype_clause_spec(s@, j as int), |x: Option<SuperTypeExpr>| opt_expr_view(x), j as int, s@.len() as int),
{
    match scan_keyword_at(s, j, &w.supertype) {
        None => Ok((j, None)),
        Some(k) => match scan_keyword_at(s, k, &w.of) {
            Some(o) => {
                let p = scan_run(s, o, CharClass::Space);
                if p < s.len() && s[p] == '(' {
                    match scan_supertype_expression(s, p + 1) {
                        Ok((e, x)) => {
                            let q = scan_run(s, e, CharClass::Space);
                            if q < s.len() && s[q] == ')' {
                                Ok((q + 1, Some(x)))
                            } else {
                                Err(TokenError::Mismatch)
                            }
                        },
                        Err(y) => Err(y),
                    }
                } else {
                    Err(TokenError::Mismatch)
                }
            },
            None => Err(TokenError::Mismatch),
        },
    }
}

fn scan_subtype_clause(s: &Vec<char>, j: usize, w: &Words) -> (r: Result<(usize, Vec<String>), TokenError>)
    requires
        j <= s@.len(),
        w.wf(),
    ensures
        same(r, subtype_clause_spec(s@, j as int), |v: Vec<String>| name_views(v@), j as int, s@.len() as int),
{
    match scan_keyword_at(s, j, &w.subtype) {
        None => {
            let v: Vec<String> = Vec::new();
            assert(name_views(v@) =~= Seq::<Seq<char>>::empty());
            Ok((j, v))
        },
        Some(k) => match scan_keyword_at(s, k, &w.of) {
            Some(o) => {
                let p = scan_run(s, o, CharClass::Space);
                if p < s.len() && s[p] == '(' {
                    scan_names(s, p + 1)
                } else {
                    Err(TokenError::Mismatch)
                }
            },
            None => Err(TokenError::Mismatch),
        },
    }
}

pub open spec fn opt_derive_view(x: Option<DeriveClause>) -> Option<Seq<DerivedAttributeView>> {
    match x {
        Some(d) => Some(d@),
        None => None,
    }
}

fn scan_entity_tail(s: &Vec<char>, j: usize, w: &Words) -> (r: Result<(usize, Option<DeriveClause>), TokenError>)
    requires
        j <= s@.len(),
        w.wf(),
    ensures
        same(r, entity_tail_spec(s@, j as int), |x: Option<DeriveClause>| opt_derive_view(x), j as int, s@.len() as int),
{
    let (e, d) = if scan_keyword_at(s, j, &w.derive).is_some() {
        match scan_derive_clause(s, j) {
            Ok((e, d)) => (e, Some(d)),
            Err(_) => {
                return Err(TokenError::Mismatch);
            },
        }
    } else {
        (j, None)
    };
    match scan_keyword_at(s, e, &w.end_entity) {
        Some(k) => match scan_semicolon(s, k) {
            Some(f) => Ok((f, d)),
            None => Err(TokenError::Mismatch),
        },
        None => Err(TokenError::Mismatch),
    }
}

fn scan_entity(s: &Vec<char>, i: usize, w: &Words) -> (r: Result<(usize, EntityDecl), TokenError>)
    requires
        i <= s@.len(),
        w.wf(),
    ensures
        same(r, entity_spec(s@, i as int), |x: EntityDecl| entity_view(x), i as int, s@.len() as int),
{
    let a = match scan_keyword_at(s, i, &w.entity) {
        Some(a) => a,
        None => {
            return Err(TokenError::Mismatch);
        },
    };
    let (e1, name) = match scan_word(s, a) {
        Some(found) => found,
        None => {
            return Err(TokenError::Mismatch);
        },
    };
    let (e2, supertype_of) = match scan_supertype_clause(s, e1, w) {
        Ok(found) => found,
        Err(x) => {
            return Err(x);
        },
    };
    let (e3, subtype_of) = match scan_subtype_clause(s, e2, w) {
        Ok(found) => found,
        Err(x) => {
            return Err(x);
        },
    };
    let e4 = match scan_semicolon(s, e3) {
        Some(e4) => e4,
        None => {
            return Err(TokenError::Mismatch);
        },
    };
    let (e5, attributes) = match scan_attrs(s, e4, w) {
        Ok(found) => found,
        Err(x) => {
            return Err(x);
        },
    };
    let (e6, derive) = match scan_entity_tail(s, e5, w) {
        Ok(found) => found,
        Err(x) => {
            return Err(x);
        },
    };
    Ok((e6, EntityDecl { name, subtype_of, supertype_of, attributes, derive }))
}

fn scan_type(s: &Vec<char>, i: usize, w: &Words) -> (r: Result<(usize, TypeDecl), TokenError>)
    requires
        i <= s@.len(),
        w.wf(),
    ensures
        same(r, type_spec(s@, i as int), |d: TypeDecl| TypeView { name: d.name@, underlying: d.underlying@ }, i as int, s@.len() as int),
{
    let p = match scan_keyword_at(s, i, &w.type_) {
        Some(p) => p,
        None => {
            return Err(TokenError::Mismatch);
        },
    };
    let (e, name) = match scan_word(s, p) {
        Some(found) => found,
        None => {
            return Err(TokenError::Mismatch);
        },
    };
    let q = scan_run(s, e, CharClass::Space);
    if !(q < s.len() && s[q] == '=') {
        return Err(TokenError::Mismatch);
    }
    let a = scan_run(s, q + 1, CharClass::Space);
    let r = scan_find_char(s, a, ';');
    let b = scan_trim_back(s, a, r);
    if !(r < s.len() && b > a) {
        return Err(TokenError::Mismatch);
    }
    match scan_keyword_at(s, r + 1, &w.end_type) {
        Some(k) => match scan_semicolon(s, k) {
            Some(f) => Ok((f, TypeDecl { name, underlying: collect_range(s, a, b) })),
            None => Err(TokenError::Mismatch),
        },
        None => Err(TokenError::Mismatch),
    }
}

pub open spec fn decls_view(d: (Vec<EntityDecl>, Vec<TypeDecl>)) -> (Seq<EntityView>, Seq<TypeView>) {
    (entity_views(d.0@), type_views(d.1@))
}

fn scan_decls(s: &Vec<char>, i: usize, w: &Words) -> (r: Result<(usize, (Vec<EntityDecl>, Vec<TypeDecl>)), TokenError>)
    requires
        i <= s@.len(),
        w.wf(),
    ensures
        same(r, decls_spec(s@, i as int), |d: (Vec<EntityDecl>, Vec<TypeDecl>)| decls_view(d), i as int, s@.len() as int),
    decreases s@.len() - i,
{
    if scan_keyword_at(s, i, &w.end_schema).is_some() {
        let es: Vec<EntityDecl> = Vec::new();
        let ts: Vec<TypeDecl> = Vec::new();
        assert(entity_views(es@) =~= Seq::<EntityView>::empty());
        assert(type_views(ts@) =~= Seq::<TypeView>::empty());
        return Ok((i, (es, ts)));
    }
    if scan_keyword_at(s, i, &w.entity).is_some() {
        match scan_entity(s, i, w) {
            Ok((e, x)) => {
                if i < e {
                    match scan_decls(s, e, w) {
                        Ok((e2, (mut es, ts))) => {
                            let ghost xv = entity_view(x);
                            let ghost ev = entity_views(es@);
                            es.insert(0, x);
                            assert(entity_views(es@) =~= seq![xv] + ev);
                            Ok((e2, (es, ts)))
                        },
                        Err(y) => Err(y),
                    }
                } else {
                    Err(TokenError::Mismatch)
                }
            },
            Err(y) => Err(y),
        }
    } else if scan_keyword_at(s, i, &w.type_).is_some() {
        match scan_type(s, i, w) {
            Ok((e, x)) => {
                if i < e {
                    match scan_decls(s, e, w) {
                        Ok((e2, (es, mut ts))) => {
                            let ghost xv = TypeView { name: x.name@, underlying: x.underlying@ };
                            let ghost tv = type_views(ts@);
                            ts.insert(0, x);
                            assert(type_views(ts@) =~= seq![xv] + tv);
                            Ok((e2, (es, ts)))
                        },
                        Err(y) => Err(y),
                    }
                } else {
                    Err(TokenError::Mismatch)
                }
            },
            Err(y) => Err(y),
        }
    } else {
        Err(TokenError::Mismatch)
    }
}

fn scan_schema(s: &Vec<char>, i: usize, w: &Words) -> (r: Result<(usize, SchemaDecl), TokenError>)
    requires
        i <= s@.len(),
        w.wf(),
    ensures
        same(r, schema_spec(s@, i as int), |x: SchemaDecl| schema_view(x), i as int, s@.len() as int),
{
    let a = match scan_keyword_at(s, i, &w.schema) {
        Some(a) => a,
        None => {
            return Err(TokenError::Mismatch);
        },
    };
    let (e, name) = match scan_word(s, a) {
        Some(found) => found,
        None => {
            return Err(TokenError::Mismatch);
        },
    };
    let b = match scan_semicolon(s, e) {
        Some(b) => b,
        None => {
            return Err(TokenError::Mismatch);
        },
    };
    let (c, (entities, types)) = match scan_decls(s, b, w) {
        Ok(found) => found,
        Err(x) => {
            return Err(x);
        },
    };
    match scan_keyword_at(s, c, &w.end_schema) {
        Some(k) => match scan_semicolon(s, k) {
            Some(f) => Ok((f, SchemaDecl { name, entities, types })),
            None => Err(TokenError::Mismatch),
        },
        None => Err(TokenError::Mismatch),
    }
}

fn scan_schemas(s: &Vec<char>, i: usize, w: &Words) -> (r: Result<(usize, Vec<SchemaDecl>), TokenError>)
    requires
        i <= s@.len(),
        w.wf(),
    ensures
        same(r, schemas_spec(s@, i as int), |v: Vec<SchemaDecl>| schema_views(v@), i as int, s@.len() as int),
    decreases s@.len() - i,
{
    let p = scan_run(s, i, CharClass::Space);
    if p >= s.len() {
        let v: Vec<SchemaDecl> = Vec::new();
        assert(schema_views(v@) =~= Seq::<SchemaView>::empty());
        return Ok((s.len(), v));
    }
    match scan_schema(s, i, w) {
        Ok((e, x)) => {
            if i < e {
                match scan_schemas(s, e, w) {
                    Ok((e2, mut rest)) => {
                        let ghost xv = schema_view(x);
                        let ghost rv = schema_views(rest@);
                        let mut v = vec![x];
                        v.append(&mut rest);
                        assert(schema_views(v@) =~= seq![xv] + rv);
                        Ok((e2, v))
                    },
                    Err(y) => Err(y),
                }
            } else {
                Err(TokenError::Mismatch)
            }
        },
        Err(y) => Err(y),
    }
}

impl SyntaxTree {
    /// Reads the schemas of an EXPRESS text; nothing but spaces may follow the last one.
    pub fn parse(input: &str) -> (r: Result<SyntaxTree, TokenError>)
        ensures
            match schemas_spec(input@, 0) {
                Ok((_, v)) => match r {
                    Ok(t) => schema_views(t.schemas@) == v,
                    Err(_) => false,
                },
                Err(x) => r == Err::<SyntaxTree, TokenError>(x),
            },
    {
        let s = chars_of(input);
        let w = Words::new();
        match scan_schemas(&s, 0, &w) {
            Ok((_, schemas)) => Ok(SyntaxTree { schemas }),
            Err(x) => Err(x),
        }
    }
}

} // verus!
