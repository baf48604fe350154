//! Attribute types, read from their text and bound to declarations.
//!
//! type = simple_type | aggregate_type | name .
//! aggregate_type = ( LIST | SET | BAG | ARRAY ) [ `[` bound `:` ( bound | `?` ) `]` ] OF type .
use crate::ast::AttributeDecl;
use crate::chars::{chars_of, digits_value, is_digit, lemma_run_end, run_end, scan_run, decimal_value, char_in_class, CharClass};
use crate::namespace::{find_from, resolve_spec, Namespace, PathView, Scope, ScopeType, SemanticError, StepView};
use crate::express::{names_spec, scan_names};
use crate::ir::name_views;
use crate::supertype::{is_keyword, is_word, scan_word, word_spec};
use crate::token::{at, gap};
use vstd::prelude::*;

verus! {

#[derive(Clone, Copy, Debug, PartialEq, Eq, Structural)]
pub enum SimpleType {
    Number,
    Real,
    Integer,
    Logical,
    Boolean,
    /// `STRING [ ( width ) [ FIXED ] ]`
    String { width: Option<u64>, fixed: bool },
    /// `BINARY [ ( width ) [ FIXED ] ]`
    Binary { width: Option<u64>, fixed: bool },
}

#[derive(Clone, Copy, Debug, PartialEq, Eq, Structural)]
pub enum AggregateKind {
    SetOf,
    BagOf,
    ListOf,
    ArrayOf,
}

/// A resolved type; `Named` and `Entity` hold the index of a declaration of the namespace.
#[derive(Debug, PartialEq, Eq)]
pub enum TypeRef {
    Simple(SimpleType),
    Named(usize),
    Entity(usize),
    /// `kind [ bounds ] OF [ OPTIONAL ] [ UNIQUE ] item`
    Aggregate { kind: AggregateKind, lower: u64, upper: Option<u64>, optional: bool, unique: bool, item: Box<TypeRef> },
    /// `ENUMERATION OF ( ... )`: the item names, in order.
    Enumeration(Vec<String>),
    /// `SELECT ( ... )`: the alternatives, each a resolved `Named` or `Entity`.
    Select(Vec<TypeRef>),
}

pub enum TypeRefView {
    Simple(SimpleType),
    Named(int),
    Entity(int),
    Aggregate { kind: AggregateKind, lower: u64, upper: Option<u64>, optional: bool, unique: bool, item: Box<TypeRefView> },
    Enumeration(Seq<Seq<char>>),
    Select(Seq<TypeRefView>),
}

pub open spec fn type_view(t: &TypeRef) -> TypeRefView
    decreases t,
{
    match t {
        TypeRef::Simple(x) => TypeRefView::Simple(*x),
        TypeRef::Named(j) => TypeRefView::Named(*j as int),
        TypeRef::Entity(j) => TypeRefView::Entity(*j as int),
        TypeRef::Aggregate { kind, lower, upper, optional, unique, item } => TypeRefView::Aggregate {
            kind: *kind,
            lower: *lower,
            upper: *upper,
            optional: *optional,
            unique: *unique,
            item: Box::new(type_view(&**item)),
        },
        TypeRef::Enumeration(v) => TypeRefView::Enumeration(name_views(v@)),
        TypeRef::Select(v) => TypeRefView::Select(
            Seq::new(v.len() as nat, |i: int| if 0 <= i < v.len() { type_view(&v[i]) } else { TypeRefView::Enumeration(Seq::empty()) }),
        ),
    }
}

pub open spec fn select_views(v: Seq<TypeRef>) -> Seq<TypeRefView> {
    Seq::new(v.len(), |i: int| type_view(&v[i]))
}

impl View for TypeRef {
    type V = TypeRefView;

    open spec fn view(&self) -> TypeRefView {
        type_view(self)
    }
}

/// What goes wrong while reading a type.
pub enum TypeFault {
    Malformed,
    Unresolved(Seq<char>),
    InvalidBound(u64, u64),
}

pub type TypeScan = Result<(int, TypeRefView), TypeFault>;

pub open spec fn simple_of(w: Seq<char>) -> Option<SimpleType> {
    if is_keyword(w, seq!['N', 'U', 'M', 'B', 'E', 'R']) {
        Some(SimpleType::Number)
    } else if is_keyword(w, seq!['R', 'E', 'A', 'L']) {
        Some(SimpleType::Real)
    } else if is_keyword(w, seq!['I', 'N', 'T', 'E', 'G', 'E', 'R']) {
        Some(SimpleType::Integer)
    } else if is_keyword(w, seq!['L', 'O', 'G', 'I', 'C', 'A', 'L']) {
        Some(SimpleType::Logical)
    } else if is_keyword(w, seq!['B', 'O', 'O', 'L', 'E', 'A', 'N']) {
        Some(SimpleType::Boolean)
    } else if is_keyword(w, seq!['S', 'T', 'R', 'I', 'N', 'G']) {
        Some(SimpleType::String { width: None, fixed: false })
    } else if is_keyword(w, seq!['B', 'I', 'N', 'A', 'R', 'Y']) {
        Some(SimpleType::Binary { width: None, fixed: false })
    } else {
        None
    }
}

pub open spec fn aggregate_of(w: Seq<char>) -> Option<AggregateKind> {
    if is_keyword(w, seq!['S', 'E', 'T']) {
        Some(AggregateKind::SetOf)
    } else if is_keyword(w, seq!['B', 'A', 'G']) {
        Some(AggregateKind::BagOf)
    } else if is_keyword(w, seq!['L', 'I', 'S', 'T']) {
        Some(AggregateKind::ListOf)
    } else if is_keyword(w, seq!['A', 'R', 'R', 'A', 'Y']) {
        Some(AggregateKind::ArrayOf)
    } else {
        None
    }
}

/// A bound after any spaces: digits that fit in 64 bits.
pub open spec fn bound_spec(s: Seq<char>, i: int) -> Option<(int, u64)> {
    let p = gap(s, i);
    if 0 <= p < s.len() && is_digit(s[p]) {
        let e = run_end(s, p, CharClass::Digit);
        if digits_value(s.subrange(p, e)) <= u64::MAX {
            Some((e, digits_value(s.subrange(p, e)) as u64))
        } else {
            None
        }
    } else {
        None
    }
}

/// `[ lower : upper ]`, upper `?` for none; absent bounds are `0` and none.
pub open spec fn bounds_spec(s: Seq<char>, i: int) -> Option<(int, u64, Option<u64>)> {
    let p = gap(s, i);
    if !at(s, p, '[') {
        Some((i, 0, None))
    } else {
        match bound_spec(s, p + 1) {
            Some((e, lo)) => {
                let c = gap(s, e);
                if !at(s, c, ':') {
                    None
                } else {
                    let q = gap(s, c + 1);
                    let (e2, hi) = if at(s, q, '?') {
                        (q + 1, Some(None))
                    } else {
                        match bound_spec(s, c + 1) {
                            Some((e2, h)) => (e2, Some(Some(h))),
                            None => (q, None),
                        }
                    };
                    match hi {
                        Some(up) => if at(s, gap(s, e2), ']') {
                            Some((gap(s, e2) + 1, lo, up))
                        } else {
                            None
                        },
                        None => None,
                    }
                }
            },
            None => None,
        }
    }
}

pub open spec fn kw_of() -> Seq<char> {
    seq!['O', 'F']
}

pub open spec fn kw_fixed() -> Seq<char> {
    seq!['F', 'I', 'X', 'E', 'D']
}

pub open spec fn kw_optional() -> Seq<char> {
    seq!['O', 'P', 'T', 'I', 'O', 'N', 'A', 'L']
}

pub open spec fn kw_unique() -> Seq<char> {
    seq!['U', 'N', 'I', 'Q', 'U', 'E']
}

/// The keyword `w` as the next word from `i`: the position after it, or `i` unchanged.
pub open spec fn optional_word(s: Seq<char>, i: int, w: Seq<char>) -> (int, bool) {
    match word_spec(s, i) {
        Some((e, x)) => if is_keyword(x, w) {
            (e, true)
        } else {
            (i, false)
        },
        None => (i, false),
    }
}

/// `[ ( width ) [ FIXED ] ]` after a STRING or BINARY.
pub open spec fn width_spec(s: Seq<char>, i: int) -> Option<(int, Option<u64>, bool)> {
    let p = gap(s, i);
    if !at(s, p, '(') {
        Some((i, None, false))
    } else {
        match bound_spec(s, p + 1) {
            Some((q, w)) => if at(s, gap(s, q), ')') {
                let (f, fixed) = optional_word(s, gap(s, q) + 1, kw_fixed());
                Some((f, Some(w), fixed))
            } else {
                None
            },
            None => None,
        }
    }
}

pub open spec fn with_width(x: SimpleType, width: Option<u64>, fixed: bool) -> SimpleType {
    match x {
        SimpleType::String { .. } => SimpleType::String { width, fixed },
        SimpleType::Binary { .. } => SimpleType::Binary { width, fixed },
        _ => x,
    }
}

pub open spec fn kw_enumeration() -> Seq<char> {
    seq!['E', 'N', 'U', 'M', 'E', 'R', 'A', 'T', 'I', 'O', 'N']
}

pub open spec fn kw_select() -> Seq<char> {
    seq!['S', 'E', 'L', 'E', 'C', 'T']
}

/// A name bound to its declaration: `Entity` for an entity, `Named` for any other.
pub open spec fn name_ref(w: Seq<char>, paths: Seq<PathView>, scope: Seq<StepView>) -> Result<TypeRefView, TypeFault> {
    match resolve_spec(paths, scope, w) {
        Some(j) => if paths[j].kind == ScopeType::Entity {
            Ok(TypeRefView::Entity(j))
        } else {
            Ok(TypeRefView::Named(j))
        },
        None => Err(TypeFault::Unresolved(w)),
    }
}

/// The alternatives of a `SELECT`, bound in order; the first unknown name fails.
pub open spec fn select_refs(names: Seq<Seq<char>>, paths: Seq<PathView>, scope: Seq<StepView>) -> Result<Seq<TypeRefView>, TypeFault>
    decreases names.len(),
{
    if names.len() == 0 {
        Ok(Seq::empty())
    } else {
        match select_refs(names.drop_last(), paths, scope) {
            Ok(v) => match name_ref(names.last(), paths, scope) {
                Ok(t) => Ok(v.push(t)),
                Err(f) => Err(f),
            },
            Err(f) => Err(f),
        }
    }
}

/// The type that starts at `i`, resolved from `scope`.
pub open spec fn type_spec(s: Seq<char>, i: int, paths: Seq<PathView>, scope: Seq<StepView>) -> TypeScan
    decreases s.len() - i,
{
    match word_spec(s, i) {
        None => Err(TypeFault::Malformed),
        Some((e, w)) => match simple_of(w) {
            Some(x) => if x is String || x is Binary {
                match width_spec(s, e) {
                    Some((f, width, fixed)) => Ok((f, TypeRefView::Simple(with_width(x, width, fixed)))),
                    None => Err(TypeFault::Malformed),
                }
            } else {
                Ok((e, TypeRefView::Simple(x)))
            },
            None => match aggregate_of(w) {
                Some(kind) => match bounds_spec(s, e) {
                    Some((b, lo, up)) => if up matches Some(u) && lo > u {
                        Err(TypeFault::InvalidBound(lo, up->Some_0))
                    } else {
                        match word_spec(s, b) {
                            Some((o, x)) => if is_keyword(x, kw_of()) {
                                let (o2, optional) = optional_word(s, o, kw_optional());
                                let (o3, unique) = optional_word(s, o2, kw_unique());
                                if i < o3 <= s.len() {
                                    match type_spec(s, o3, paths, scope) {
                                        Ok((f, item)) => Ok(
                                            (
                                                f,
                                                TypeRefView::Aggregate {
                                                    kind,
                                                    lower: lo,
                                                    upper: up,
                                                    optional,
                                                    unique,
                                                    item: Box::new(item),
                                                },
                                            ),
                                        ),
                                        Err(x) => Err(x),
                                    }
                                } else {
                                    Err(TypeFault::Malformed)
                                }
                            } else {
                                Err(TypeFault::Malformed)
                            },
                            None => Err(TypeFault::Malformed),
                        }
                    },
                    None => Err(TypeFault::Malformed),
                },
                None => if is_keyword(w, kw_enumeration()) {
                    match word_spec(s, e) {
                        Some((o, x)) => if is_keyword(x, kw_of()) && at(s, gap(s, o), '(') {
                            match names_spec(s, gap(s, o) + 1) {
                                Ok((f, items)) => Ok((f, TypeRefView::Enumeration(items))),
                                Err(_) => Err(TypeFault::Malformed),
                            }
                        } else {
                            Err(TypeFault::Malformed)
                        },
                        None => Err(TypeFault::Malformed),
                    }
                } else if is_keyword(w, kw_select()) {
                    if at(s, gap(s, e), '(') {
                        match names_spec(s, gap(s, e) + 1) {
                            Ok((f, items)) => match select_refs(items, paths, scope) {
                                Ok(v) => Ok((f, TypeRefView::Select(v))),
                                Err(x) => Err(x),
                            },
                            Err(_) => Err(TypeFault::Malformed),
                        }
                    } else {
                        Err(TypeFault::Malformed)
                    }
                } else {
                    match name_ref(w, paths, scope) {
                        Ok(t) => Ok((e, t)),
                        Err(x) => Err(x),
                    }
                },
            },
        },
    }
}

/// The whole text is one type.
pub open spec fn whole_type_spec(s: Seq<char>, paths: Seq<PathView>, scope: Seq<StepView>) -> TypeScan {
    match type_spec(s, 0, paths, scope) {
        Ok((e, t)) => if gap(s, e) == s.len() {
            Ok((e, t))
        } else {
            Err(TypeFault::Malformed)
        },
        Err(x) => Err(x),
    }
}

/// An executable result agrees with a type scan.
pub open spec fn same_type(r: Result<(usize, TypeRef), SemanticError>, sp: TypeScan, scope: Seq<StepView>, i: int, n: int) -> bool {
    match sp {
        Ok((e, v)) => match r {
            Ok((e2, v2)) => e2 == e && v2@ == v && i <= e <= n,
            Err(_) => false,
        },
        Err(f) => match r {
            Ok(_) => false,
            Err(x) => fault_is(f, x, scope),
        },
    }
}

/// The error that stands for a fault.
pub open spec fn fault_is(f: TypeFault, x: SemanticError, scope: Seq<StepView>) -> bool {
    match f {
        TypeFault::Malformed => x is MalformedType,
        TypeFault::Unresolved(n) => match x {
            SemanticError::UnresolvedName { name, scope: at } => name@ == n && at@ == scope,
            _ => false,
        },
        TypeFault::InvalidBound(lo, up) => x == SemanticError::InvalidBound { lower: lo, upper: up },
    }
}

fn simple_exec(w: &String) -> (r: Option<SimpleType>)
    ensures
        r == simple_of(w@),
{
    let k0 = vec!['N', 'U', 'M', 'B', 'E', 'R'];
    assert(k0@ =~= seq!['N', 'U', 'M', 'B', 'E', 'R']);
    let k1 = vec!['R', 'E', 'A', 'L'];
    assert(k1@ =~= seq!['R', 'E', 'A', 'L']);
    let k2 = vec!['I', 'N', 'T', 'E', 'G', 'E', 'R'];
    assert(k2@ =~= seq!['I', 'N', 'T', 'E', 'G', 'E', 'R']);
    let k3 = vec!['L', 'O', 'G', 'I', 'C', 'A', 'L'];
    assert(k3@ =~= seq!['L', 'O', 'G', 'I', 'C', 'A', 'L']);
    let k4 = vec!['B', 'O', 'O', 'L', 'E', 'A', 'N'];
    assert(k4@ =~= seq!['B', 'O', 'O', 'L', 'E', 'A', 'N']);
    let k5 = vec!['S', 'T', 'R', 'I', 'N', 'G'];
    assert(k5@ =~= seq!['S', 'T', 'R', 'I', 'N', 'G']);
    let k6 = vec!['B', 'I', 'N', 'A', 'R', 'Y'];
    assert(k6@ =~= seq!['B', 'I', 'N', 'A', 'R', 'Y']);
    if is_word(w, &k0) {
        Some(SimpleType::Number)
    } else if is_word(w, &k1) {
        Some(SimpleType::Real)
    } else if is_word(w, &k2) {
        Some(SimpleType::Integer)
    } else if is_word(w, &k3) {
        Some(SimpleType::Logical)
    } else if is_word(w, &k4) {
        Some(SimpleType::Boolean)
    } else if is_word(w, &k5) {
        Some(SimpleType::String { width: None, fixed: false })
    } else if is_word(w, &k6) {
        Some(SimpleType::Binary { width: None, fixed: false })
    } else {
        None
    }
}

fn aggregate_exec(w: &String) -> (r: Option<AggregateKind>)
    ensures
        r == aggregate_of(w@),
{
    let k0 = vec!['S', 'E', 'T'];
    assert(k0@ =~= seq!['S', 'E', 'T']);
    let k1 = vec!['B', 'A', 'G'];
    assert(k1@ =~= seq!['B', 'A', 'G']);
    let k2 = vec!['L', 'I', 'S', 'T'];
    assert(k2@ =~= seq!['L', 'I', 'S', 'T']);
    let k3 = vec!['A', 'R', 'R', 'A', 'Y'];
    assert(k3@ =~= seq!['A', 'R', 'R', 'A', 'Y']);
    if is_word(w, &k0) {
        Some(AggregateKind::SetOf)
    } else if is_word(w, &k1) {
        Some(AggregateKind::BagOf)
    } else if is_word(w, &k2) {
        Some(AggregateKind::ListOf)
    } else if is_word(w, &k3) {
        Some(AggregateKind::ArrayOf)
    } else {
        None
    }
}

fn scan_bound(s: &Vec<char>, i: usize) -> (r: Option<(usize, u64)>)
    requires
        i <= s@.len(),
    ensures
        match bound_spec(s@, i as int) {
            Some((e, v)) => r matches Some((e2, v2)) && e2 == e && v2 == v && i <= e <= s@.len(),
            None => r is None,
        },
{
    let p = scan_run(s, i, CharClass::Space);
    if p < s.len() && char_in_class(CharClass::Digit, s[p]) {
        let e = scan_run(s, p, CharClass::Digit);
        proof {
            lemma_run_end(s@, p as int, CharClass::Digit);
        }
        match decimal_value(s, p, e) {
            Some(v) => Some((e, v)),
            None => None,
        }
    } else {
        None
    }
}

fn scan_bounds(s: &Vec<char>, i: usize) -> (r: Option<(usize, u64, Option<u64>)>)
    requires
        i <= s@.len(),
    ensures
        match bounds_spec(s@, i as int) {
            Some((e, lo, up)) => r matches Some((e2, lo2, up2)) && e2 == e && lo2 == lo && up2 == up && i <= e <= s@.len(),
            None => r is None,
        },
{
    let p = scan_run(s, i, CharClass::Space);
    if !(p < s.len() && s[p] == '[') {
        return Some((i, 0, None));
    }
    let (e, lo) = match scan_bound(s, p + 1) {
        Some(found) => found,
        None => {
            return None;
        },
    };
    let c = scan_run(s, e, CharClass::Space);
    if !(c < s.len() && s[c] == ':') {
        return None;
    }
    let q = scan_run(s, c + 1, CharClass::Space);
    let (e2, up) = if q < s.len() && s[q] == '?' {
        (q + 1, None)
    } else {
        match scan_bound(s, c + 1) {
            Some((e2, h)) => (e2, Some(h)),
            None => {
                return None;
            },
        }
    };
    let f = scan_run(s, e2, CharClass::Space);
    if f < s.len() && s[f] == ']' {
        Some((f + 1, lo, up))
    } else {
        None
    }
}

fn scan_type(ns: &Namespace, scope: &Scope, s: &Vec<char>, i: usize) -> (r: Result<(usize, TypeRef), SemanticError>)
    requires
        i <= s@.len(),
    ensures
        same_type(r, type_spec(s@, i as int, ns@, scope@), scope@, i as int, s@.len() as int),
    decreases s@.len() - i,
{
    let (e, w) = match scan_word(s, i) {
        Some(found) => found,
        None => {
            return Err(SemanticError::MalformedType);
        },
    };
    if let Some(x) = simple_exec(&w) {
        let sized = match x {
            SimpleType::String { .. } => true,
            SimpleType::Binary { .. } => true,
            _ => false,
        };
        if sized {
            return match scan_width(s, e) {
                Some((f, width, fixed)) => {
                    let y = match x {
                        SimpleType::String { .. } => SimpleType::String { width, fixed },
                        _ => SimpleType::Binary { width, fixed },
                    };
                    Ok((f, TypeRef::Simple(y)))
                },
                None => Err(SemanticError::MalformedType),
            };
        }
        return Ok((e, TypeRef::Simple(x)));
    }
    match aggregate_exec(&w) {
        Some(kind) => {
            let (b, lo, up) = match scan_bounds(s, e) {
                Some(found) => found,
                None => {
                    return Err(SemanticError::MalformedType);
                },
            };
            if let Some(u) = up {
                if lo > u {
                    return Err(SemanticError::InvalidBound { lower: lo, upper: u });
                }
            }
            match scan_word(s, b) {
                Some((o, x)) => {
                    let of = vec!['O', 'F'];
                    assert(of@ =~= kw_of());
                    if is_word(&x, &of) {
                        let k_opt = vec!['O', 'P', 'T', 'I', 'O', 'N', 'A', 'L'];
                        let k_uni = vec!['U', 'N', 'I', 'Q', 'U', 'E'];
                        assert(k_opt@ =~= kw_optional());
                        assert(k_uni@ =~= kw_unique());
                        let (o2, optional) = scan_optional_word(s, o, &k_opt);
                        let (o3, unique) = scan_optional_word(s, o2, &k_uni);
                        match scan_type(ns, scope, s, o3) {
                            Ok((f, item)) => {
                                let ghost iv = item@;
                                let t = TypeRef::Aggregate { kind, lower: lo, upper: up, optional, unique, item: Box::new(item) };
                                assert(t@ == TypeRefView::Aggregate { kind, lower: lo, upper: up, optional, unique, item: Box::new(iv) });
                                Ok((f, t))
                            },
                            Err(y) => Err(y),
                        }
                    } else {
                        Err(SemanticError::MalformedType)
                    }
                },
                None => Err(SemanticError::MalformedType),
            }
        },
        None => {
            let k_enum = vec!['E', 'N', 'U', 'M', 'E', 'R', 'A', 'T', 'I', 'O', 'N'];
            let k_select = vec!['S', 'E', 'L', 'E', 'C', 'T'];
            let k_of = vec!['O', 'F'];
            assert(k_enum@ =~= kw_enumeration());
            assert(k_select@ =~= kw_select());
            assert(k_of@ =~= kw_of());
            if is_word(&w, &k_enum) {
                match scan_word(s, e) {
                    Some((o, x)) => {
                        let p = scan_run(s, o, CharClass::Space);
                        if is_word(&x, &k_of) && p < s.len() && s[p] == '(' {
                            match scan_names(s, p + 1) {
                                Ok((f, items)) => Ok((f, TypeRef::Enumeration(items))),
                                Err(_) => Err(SemanticError::MalformedType),
                            }
                        } else {
                            Err(SemanticError::MalformedType)
                        }
                    },
                    None => Err(SemanticError::MalformedType),
                }
            } else if is_word(&w, &k_select) {
                let p = scan_run(s, e, CharClass::Space);
                if p < s.len() && s[p] == '(' {
                    match scan_names(s, p + 1) {
                        Ok((f, items)) => match select_exec(ns, scope, &items) {
                            Ok(v) => {
                                let ghost vv = select_views(v@);
                                let t = TypeRef::Select(v);
                                proof {
                                    if let TypeRefView::Select(xs) = t@ {
                                        assert(xs =~= vv);
                                    }
                                }
                                Ok((f, t))
                            },
                            Err(x) => Err(x),
                        },
                        Err(_) => Err(SemanticError::MalformedType),
                    }
                } else {
                    Err(SemanticError::MalformedType)
                }
            } else {
                match name_ref_exec(ns, scope, w) {
                    Ok(t) => Ok((e, t)),
                    Err(x) => Err(x),
                }
            }
        },
    }
}

fn scan_optional_word(s: &Vec<char>, i: usize, w: &Vec<char>) -> (r: (usize, bool))
    requires
        i <= s@.len(),
    ensures
        r.0 == optional_word(s@, i as int, w@).0,
        r.1 == optional_word(s@, i as int, w@).1,
        i <= r.0 <= s@.len(),
{
    match scan_word(s, i) {
        Some((e, x)) => {
            if is_word(&x, w) {
                (e, true)
            } else {
                (i, false)
            }
        },
        None => (i, false),
    }
}

fn scan_width(s: &Vec<char>, i: usize) -> (r: Option<(usize, Option<u64>, bool)>)
    requires
        i <= s@.len(),
    ensures
        match width_spec(s@, i as int) {
            Some((e, w, f)) => r matches Some((e2, w2, f2)) && e2 == e && w2 == w && f2 == f && i <= e <= s@.len(),
            None => r is None,
        },
{
    let p = scan_run(s, i, CharClass::Space);
    if !(p < s.len() && s[p] == '(') {
        return Some((i, None, false));
    }
    match scan_bound(s, p + 1) {
        Some((q, w)) => {
            let c = scan_run(s, q, CharClass::Space);
            if c < s.len() && s[c] == ')' {
                let k_fixed = vec!['F', 'I', 'X', 'E', 'D'];
                assert(k_fixed@ =~= kw_fixed());
                let (f, fixed) = scan_optional_word(s, c + 1, &k_fixed);
                Some((f, Some(w), fixed))
            } else {
                None
            }
        },
        None => None,
    }
}

fn name_ref_exec(ns: &Namespace, scope: &Scope, w: String) -> (r: Result<TypeRef, SemanticError>)
    ensures
        match name_ref(w@, ns@, scope@) {
            Ok(v) => r matches Ok(t) && t@ == v,
            Err(f) => r matches Err(x) && fault_is(f, x, scope@),
        },
{
    match ns.resolve_index(scope, w.as_str()) {
        Some(j) => {
            assert(ns@[j as int] == ns.paths@[j as int]@);
            if ns.paths[j].kind == ScopeType::Entity {
                Ok(TypeRef::Entity(j))
            } else {
                Ok(TypeRef::Named(j))
            }
        },
        None => Err(SemanticError::UnresolvedName { name: w, scope: scope.duplicate() }),
    }
}

fn select_exec(ns: &Namespace, scope: &Scope, names: &Vec<String>) -> (r: Result<Vec<TypeRef>, SemanticError>)
    ensures
        match select_refs(name_views(names@), ns@, scope@) {
            Ok(v) => r matches Ok(out) && select_views(out@) == v,
            Err(f) => r matches Err(x) && fault_is(f, x, scope@),
        },
{
    let mut out: Vec<TypeRef> = Vec::new();
    let mut k: usize = 0;
    let ghost nv = name_views(names@);
    assert(nv.take(0) =~= Seq::<Seq<char>>::empty());
    assert(select_views(out@) =~= Seq::<TypeRefView>::empty());
    while k < names.len()
        invariant
            k <= names@.len(),
            nv == name_views(names@),
            select_refs(nv.take(k as int), ns@, scope@) == Ok::<Seq<TypeRefView>, TypeFault>(select_views(out@)),
        decreases names@.len() - k,
    {
        let ghost pre = nv.take(k + 1);
        assert(pre.drop_last() =~= nv.take(k as int));
        assert(pre.last() == names@[k as int]@);
        match name_ref_exec(ns, scope, names[k].clone()) {
            Ok(t) => {
                let ghost prev = out@;
                out.push(t);
                assert(select_views(out@) =~= select_views(prev).push(t@));
            },
            Err(x) => {
                proof {
                    lemma_select_prefix(nv, k + 1, ns@, scope@);
                }
                return Err(x);
            },
        }
        k = k + 1;
    }
    assert(nv.take(nv.len() as int) =~= nv);
    Ok(out)
}

proof fn lemma_select_prefix(names: Seq<Seq<char>>, m: int, paths: Seq<PathView>, scope: Seq<StepView>)
    requires
        0 <= m <= names.len(),
        select_refs(names.take(m), paths, scope) is Err,
    ensures
        select_refs(names, paths, scope) == select_refs(names.take(m), paths, scope),
    decreases names.len() - m,
{
    if m < names.len() {
        assert(names.take(m + 1).drop_last() =~= names.take(m));
        lemma_select_prefix(names, m + 1, paths, scope);
    } else {
        assert(names.take(m) =~= names);
    }
}

/// Reads a whole attribute type and binds each name in it, from `scope` outward.
pub fn attribute_type(ns: &Namespace, scope: &Scope, text: &str) -> (r: Result<TypeRef, SemanticError>)
    ensures
        match whole_type_spec(text@, ns@, scope@) {
            Ok((_, v)) => r matches Ok(t) && t@ == v,
            Err(f) => r matches Err(x) && fault_is(f, x, scope@),
        },
{
    let s = chars_of(text);
    match scan_type(ns, scope, &s, 0) {
        Ok((e, t)) => {
            if scan_run(&s, e, CharClass::Space) == s.len() {
                Ok(t)
            } else {
                Err(SemanticError::MalformedType)
            }
        },
        Err(x) => Err(x),
    }
}

/// An attribute with its type resolved.
#[derive(Debug, PartialEq, Eq)]
pub struct Attribute {
    pub name: String,
    pub optional: bool,
    pub ty: TypeRef,
}

pub struct AttributeView {
    pub name: Seq<char>,
    pub optional: bool,
    pub ty: TypeRefView,
}

pub open spec fn attribute_views(v: Seq<Attribute>) -> Seq<AttributeView> {
    v.map_values(|a: Attribute| AttributeView { name: a.name@, optional: a.optional, ty: a.ty@ })
}

/// What goes wrong with a list of attributes.
pub enum AttrFault {
    Duplicate(Seq<char>),
    Type(TypeFault),
}

/// The attributes resolved in order; the first failing one, in source order, decides
/// the error.
pub open spec fn attrs_legal(attrs: Seq<AttributeDecl>, paths: Seq<PathView>, scope: Seq<StepView>) -> Result<Seq<AttributeView>, AttrFault>
    decreases attrs.len(),
{
    if attrs.len() == 0 {
        Ok(Seq::empty())
    } else {
        match attrs_legal(attrs.drop_last(), paths, scope) {
            Err(f) => Err(f),
            Ok(done) => {
                let a = attrs.last();
                if exists|j: int| 0 <= j < attrs.len() - 1 && #[trigger] attrs[j].name@ == a.name@ {
                    Err(AttrFault::Duplicate(a.name@))
                } else {
                    match whole_type_spec(a.ty@, paths, scope) {
                        Ok((_, t)) => Ok(done.push(AttributeView { name: a.name@, optional: a.optional, ty: t })),
                        Err(f) => Err(AttrFault::Type(f)),
                    }
                }
            },
        }
    }
}

/// Resolves the attributes of an entity from `scope` outward, in source order.
pub fn legalize_attributes(ns: &Namespace, scope: &Scope, attrs: &Vec<AttributeDecl>) -> (r: Result<Vec<Attribute>, SemanticError>)
    ensures
        match attrs_legal(attrs@, ns@, scope@) {
            Ok(v) => r matches Ok(out) && attribute_views(out@) == v,
            Err(AttrFault::Duplicate(n)) => r matches Err(SemanticError::DuplicateAttribute { name }) && name@ == n,
            Err(AttrFault::Type(f)) => r matches Err(x) && fault_is(f, x, scope@),
        },
{
    let mut out: Vec<Attribute> = Vec::new();
    let mut k: usize = 0;
    assert(attrs@.take(0) =~= Seq::<AttributeDecl>::empty());
    assert(attribute_views(out@) =~= Seq::<AttributeView>::empty());
    while k < attrs.len()
        invariant
            k <= attrs@.len(),
            attrs_legal(attrs@.take(k as int), ns@, scope@) == Ok::<Seq<AttributeView>, AttrFault>(attribute_views(out@)),
        decreases attrs@.len() - k,
    {
        let a = &attrs[k];
        let ghost pre = attrs@.take(k + 1);
        proof {
            assert(pre.drop_last() =~= attrs@.take(k as int));
            assert(pre.last() == *a);
        }
        let mut j: usize = 0;
        while j < k
            invariant
                j <= k < attrs@.len(),
                pre == attrs@.take(k + 1),
                *a == attrs@[k as int],
                forall|x: int| 0 <= x < j ==> attrs@[x].name@ != a.name@,
                attrs_legal(attrs@.take(k as int), ns@, scope@) is Ok,
                pre.drop_last() == attrs@.take(k as int),
                pre.last() == *a,
            decreases k - j,
        {
            if attrs[j].name == a.name {
                proof {
                    assert(pre[j as int].name@ == pre.last().name@);
                    assert(attrs_legal(pre, ns@, scope@) == Err::<Seq<AttributeView>, AttrFault>(
                        AttrFault::Duplicate(a.name@),
                    ));
                    lemma_attrs_prefix(attrs@, k + 1, ns@, scope@);
                }
                return Err(SemanticError::DuplicateAttribute { name: a.name.clone() });
            }
            j = j + 1;
        }
        proof {
            assert forall|x: int| 0 <= x < pre.len() - 1 implies #[trigger] pre[x].name@ != pre.last().name@ by {
                assert(pre[x] == attrs@[x]);
            }
        }
        match attribute_type(ns, scope, a.ty.as_str()) {
            Ok(t) => {
                let ghost prev = out@;
                out.push(Attribute { name: a.name.clone(), optional: a.optional, ty: t });
                assert(attribute_views(out@) =~= attribute_views(prev).push(attribute_views(out@).last()));
            },
            Err(x) => {
                proof {
                    lemma_attrs_prefix(attrs@, k + 1, ns@, scope@);
                }
                return Err(x);
            },
        }
        k = k + 1;
    }
    assert(attrs@.take(attrs@.len() as int) =~= attrs@);
    Ok(out)
}

proof fn lemma_attrs_prefix(attrs: Seq<AttributeDecl>, m: int, paths: Seq<PathView>, scope: Seq<StepView>)
    requires
        0 <= m <= attrs.len(),
        attrs_legal(attrs.take(m), paths, scope) is Err,
    ensures
        attrs_legal(attrs, paths, scope) == attrs_legal(attrs.take(m), paths, scope),
    decreases attrs.len() - m,
{
    if m < attrs.len() {
        assert(attrs.take(m + 1).drop_last() =~= attrs.take(m));
        lemma_attrs_prefix(attrs, m + 1, paths, scope);
    } else {
        assert(attrs.take(m) =~= attrs);
    }
}

/// Every declaration index in the type names a declaration of a namespace of `n`.
pub open spec fn refs_within(t: TypeRefView, n: int) -> bool
    decreases t,
{
    match t {
        TypeRefView::Simple(_) => true,
        TypeRefView::Named(j) => 0 <= j < n,
        TypeRefView::Entity(j) => 0 <= j < n,
        TypeRefView::Aggregate { item, .. } => refs_within(*item, n),
        TypeRefView::Enumeration(_) => true,
        TypeRefView::Select(v) => forall|i: int| 0 <= i < v.len() ==> match #[trigger] v[i] {
            TypeRefView::Named(j) => 0 <= j < n,
            TypeRefView::Entity(j) => 0 <= j < n,
            _ => false,
        },
    }
}

proof fn lemma_select_range(names: Seq<Seq<char>>, paths: Seq<PathView>, scope: Seq<StepView>)
    ensures
        select_refs(names, paths, scope) matches Ok(v) ==> forall|i: int| 0 <= i < v.len() ==> match #[trigger] v[i] {
            TypeRefView::Named(j) => 0 <= j < paths.len(),
            TypeRefView::Entity(j) => 0 <= j < paths.len(),
            _ => false,
        },
    decreases names.len(),
{
    if names.len() > 0 {
        lemma_select_range(names.drop_last(), paths, scope);
        lemma_resolve_range(paths, scope, names.last());
    }
}

proof fn lemma_find_range(paths: Seq<PathView>, scope: Seq<StepView>, name: Seq<char>, j: int)
    ensures
        find_from(paths, scope, name, j) matches Some(x) ==> 0 <= x < paths.len(),
    decreases paths.len() - j,
{
    if 0 <= j < paths.len() {
        lemma_find_range(paths, scope, name, j + 1);
    }
}

pub(crate) proof fn lemma_resolve_range(paths: Seq<PathView>, scope: Seq<StepView>, name: Seq<char>)
    ensures
        resolve_spec(paths, scope, name) matches Some(x) ==> 0 <= x < paths.len(),
    decreases scope.len(),
{
    lemma_find_range(paths, scope, name, 0);
    if scope.len() > 0 {
        lemma_resolve_range(paths, scope.drop_last(), name);
    }
}

proof fn lemma_type_refs(s: Seq<char>, i: int, paths: Seq<PathView>, scope: Seq<StepView>)
    ensures
        type_spec(s, i, paths, scope) matches Ok((_, t)) ==> refs_within(t, paths.len() as int),
    decreases s.len() - i,
{
    if let Some((e, w)) = word_spec(s, i) {
        if simple_of(w) is None {
            if aggregate_of(w) is Some {
                if let Some((b, lo, up)) = bounds_spec(s, e) {
                    if let Some((o, x)) = word_spec(s, b) {
                        if is_keyword(x, kw_of()) {
                            let (o2, optional) = optional_word(s, o, kw_optional());
                            let (o3, unique) = optional_word(s, o2, kw_unique());
                            if i < o3 <= s.len() {
                                lemma_type_refs(s, o3, paths, scope);
                            }
                        }
                    }
                }
            } else {
                lemma_resolve_range(paths, scope, w);
                if is_keyword(w, kw_select()) && at(s, gap(s, e), '(') {
                    if let Ok((f, items)) = names_spec(s, gap(s, e) + 1) {
                        lemma_select_range(items, paths, scope);
                    }
                }
            }
        }
    }
}

/// A legalized list of attributes refers only to declarations of the namespace: no
/// name is left unresolved in any of its types, however deeply nested.
pub proof fn attribute_types_resolved(attrs: Seq<AttributeDecl>, paths: Seq<PathView>, scope: Seq<StepView>)
    requires
        attrs_legal(attrs, paths, scope) is Ok,
    ensures
        forall|i: int| 0 <= i < attrs_legal(attrs, paths, scope)->Ok_0.len() ==> refs_within(
            #[trigger] attrs_legal(attrs, paths, scope)->Ok_0[i].ty,
            paths.len() as int,
        ),
    decreases attrs.len(),
{
    if attrs.len() > 0 {
        attribute_types_resolved(attrs.drop_last(), paths, scope);
        lemma_type_refs(attrs.last().ty@, 0, paths, scope);
    }
}

} // verus!
