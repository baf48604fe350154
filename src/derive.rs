//! The `DERIVE` clause of an EXPRESS entity.
//!
//! The type and the expression of a derived attribute are kept as source text:
//! they are captured, not analysed.
use crate::chars::{
    char_in_class, chars_of, collect_range, in_class, is_alpha, run_end, scan_run, CharClass,
};
use crate::supertype::{is_keyword, is_word};
use crate::token::{at, gap, Scan, TokenError};
use vstd::prelude::*;

verus! {

/// `name : type := expression ;`
#[derive(Clone, Debug, PartialEq, Eq)]
pub struct DerivedAttribute {
    pub attr: String,
    /// The parameter type as written, without surrounding spaces.
    pub ty: String,
    /// The expression as written, without surrounding spaces.
    pub expr: String,
}

pub struct DerivedAttributeView {
    pub attr: Seq<char>,
    pub ty: Seq<char>,
    pub expr: Seq<char>,
}

impl View for DerivedAttribute {
    type V = DerivedAttributeView;

    open spec fn view(&self) -> DerivedAttributeView {
        DerivedAttributeView { attr: self.attr@, ty: self.ty@, expr: self.expr@ }
    }
}

/// `DERIVE` followed by one or more derived attributes.
#[derive(Clone, Debug, PartialEq, Eq)]
pub struct DeriveClause {
    pub attributes: Vec<DerivedAttribute>,
}

pub open spec fn attr_views(v: Seq<DerivedAttribute>) -> Seq<DerivedAttributeView> {
    v.map_values(|a: DerivedAttribute| a@)
}

impl View for DeriveClause {
    type V = Seq<DerivedAttributeView>;

    open spec fn view(&self) -> Seq<DerivedAttributeView> {
        attr_views(self.attributes@)
    }
}

/// The first position at or after `j` that holds `c`, or the length of `s`.
pub open spec fn find_char(s: Seq<char>, j: int, c: char) -> int
    decreases s.len() - j,
{
    if j < 0 || j >= s.len() {
        s.len() as int
    } else if s[j] == c {
        j
    } else {
        find_char(s, j + 1, c)
    }
}

/// The first position at or after `j` where `:=` starts, or the length of `s`
/// where a `;` or the end of the text comes first.
pub open spec fn find_assign(s: Seq<char>, j: int) -> int
    decreases s.len() - j,
{
    if j < 0 || j >= s.len() || s[j] == ';' {
        s.len() as int
    } else if s[j] == ':' && at(s, j + 1, '=') {
        j
    } else {
        find_assign(s, j + 1)
    }
}

/// The first `;` at or after `j` that stands outside a quoted string, or the length
/// of `s`; `quoted` tells whether `j` is inside one.
pub open spec fn expr_end(s: Seq<char>, j: int, quoted: bool) -> int
    decreases s.len() - j,
{
    if j < 0 || j >= s.len() {
        s.len() as int
    } else if quoted {
        expr_end(s, j + 1, s[j] != '\'')
    } else if s[j] == ';' {
        j
    } else {
        expr_end(s, j + 1, s[j] == '\'')
    }
}

/// The end of `s[a..b]` once trailing spaces are left out.
pub open spec fn trim_back(s: Seq<char>, a: int, b: int) -> int
    decreases b - a,
{
    if a < b && 0 < b <= s.len() && in_class(CharClass::Space, s[b - 1]) {
        trim_back(s, a, b - 1)
    } else {
        b
    }
}

/// derived_attr = attribute_decl `:` parameter_type `:=` expression `;` , with spaces
/// allowed between the parts; the type and the expression must not be empty. The
/// type holds no `;`; the expression ends at the first `;` outside a quoted string.
pub open spec fn derived_attr_spec(s: Seq<char>, i: int) -> Scan<DerivedAttributeView> {
    let start = gap(s, i);
    if !(0 <= start < s.len() && is_alpha(s[start])) {
        Err(TokenError::Mismatch)
    } else {
        let e1 = run_end(s, start + 1, CharClass::Word);
        let colon = gap(s, e1);
        if !at(s, colon, ':') || at(s, colon + 1, '=') {
            Err(TokenError::Mismatch)
        } else {
            let ty_start = gap(s, colon + 1);
            let q = find_assign(s, ty_start);
            let t_end = trim_back(s, ty_start, q);
            if q >= s.len() || t_end == ty_start {
                Err(TokenError::Mismatch)
            } else {
                let expr_start = gap(s, q + 2);
                let r = expr_end(s, expr_start, false);
                let x_end = trim_back(s, expr_start, r);
                if r >= s.len() || x_end == expr_start {
                    Err(TokenError::Mismatch)
                } else {
                    Ok(
                        (
                            r + 1,
                            DerivedAttributeView {
                                attr: s.subrange(start, e1),
                                ty: s.subrange(ty_start, t_end),
                                expr: s.subrange(expr_start, x_end),
                            },
                        ),
                    )
                }
            }
        }
    }
}

pub(crate) fn scan_find_char(s: &Vec<char>, j: usize, c: char) -> (r: usize)
    requires
        j <= s@.len(),
    ensures
        r == find_char(s@, j as int, c),
        j <= r <= s@.len(),
{
    let mut k: usize = j;
    while k < s.len() && s[k] != c
        invariant
            j <= k <= s@.len(),
            find_char(s@, k as int, c) == find_char(s@, j as int, c),
        decreases s@.len() - k,
    {
        k = k + 1;
    }
    k
}

fn scan_find_assign(s: &Vec<char>, j: usize) -> (r: usize)
    requires
        j <= s@.len(),
    ensures
        r == find_assign(s@, j as int),
        j <= r <= s@.len(),
        r < s@.len() ==> r + 1 < s@.len(),
{
    let mut k: usize = j;
    while k < s.len() && s[k] != ';' && !(s[k] == ':' && k + 1 < s.len() && s[k + 1] == '=')
        invariant
            j <= k <= s@.len(),
            find_assign(s@, k as int) == find_assign(s@, j as int),
        decreases s@.len() - k,
    {
        k = k + 1;
    }
    if k < s.len() && s[k] == ';' {
        s.len()
    } else {
        k
    }
}

pub(crate) fn scan_expr_end(s: &Vec<char>, j: usize) -> (r: usize)
    requires
        j <= s@.len(),
    ensures
        r == expr_end(s@, j as int, false),
        j <= r <= s@.len(),
{
    let mut k: usize = j;
    let mut quoted = false;
    while k < s.len() && (quoted || s[k] != ';')
        invariant
            j <= k <= s@.len(),
            expr_end(s@, k as int, quoted) == expr_end(s@, j as int, false),
        decreases s@.len() - k,
    {
        if quoted {
            quoted = s[k] != '\'';
        } else {
            quoted = s[k] == '\'';
        }
        k = k + 1;
    }
    k
}

pub(crate) fn scan_trim_back(s: &Vec<char>, a: usize, b: usize) -> (r: usize)
    requires
        a <= b <= s@.len(),
    ensures
        r == trim_back(s@, a as int, b as int),
        a <= r <= b,
{
    let mut k: usize = b;
    while a < k && char_in_class(CharClass::Space, s[k - 1])
        invariant
            a <= k <= b <= s@.len(),
            trim_back(s@, a as int, k as int) == trim_back(s@, a as int, b as int),
        decreases k - a,
    {
        k = k - 1;
    }
    k
}

pub(crate) fn scan_derived_attr(s: &Vec<char>, i: usize) -> (r: Result<(usize, DerivedAttribute), TokenError>)
    requires
        i <= s@.len(),
    ensures
        match derived_attr_spec(s@, i as int) {
            Ok((e, v)) => match r {
                Ok((e2, v2)) => e2 == e && v2@ == v && i < e <= s@.len(),
                Err(_) => false,
            },
            Err(x) => r == Err::<(usize, DerivedAttribute), TokenError>(x),
        },
{
    let start = scan_run(s, i, CharClass::Space);
    if !(start < s.len() && (('A' <= s[start] && s[start] <= 'Z') || ('a' <= s[start] && s[start] <= 'z'))) {
        return Err(TokenError::Mismatch);
    }
    let e1 = scan_run(s, start + 1, CharClass::Word);
    let colon = scan_run(s, e1, CharClass::Space);
    if !(colon < s.len() && s[colon] == ':') || (colon + 1 < s.len() && s[colon + 1] == '=') {
        return Err(TokenError::Mismatch);
    }
    let ty_start = scan_run(s, colon + 1, CharClass::Space);
    let q = scan_find_assign(s, ty_start);
    let t_end = scan_trim_back(s, ty_start, q);
    if q >= s.len() || t_end == ty_start {
        return Err(TokenError::Mismatch);
    }
    let expr_start = scan_run(s, q + 2, CharClass::Space);
    let r = scan_expr_end(s, expr_start);
    let x_end = scan_trim_back(s, expr_start, r);
    if r >= s.len() || x_end == expr_start {
        return Err(TokenError::Mismatch);
    }
    let attr = DerivedAttribute {
        attr: collect_range(s, start, e1),
        ty: collect_range(s, ty_start, t_end),
        expr: collect_range(s, expr_start, x_end),
    };
    Ok((r + 1, attr))
}

/// Reads one derived attribute; the rest of the input follows the `;`.
pub fn derived_attr(input: &str) -> (r: Result<(&str, DerivedAttribute), TokenError>)
    ensures
        match derived_attr_spec(input@, 0) {
            Ok((e, v)) => match r {
                Ok((rest, v2)) => rest@ == input@.subrange(e, input@.len() as int) && v2@ == v,
                Err(_) => false,
            },
            Err(x) => r == Err::<(&str, DerivedAttribute), TokenError>(x),
        },
{
    let s = chars_of(input);
    match scan_derived_attr(&s, 0) {
        Ok((e, v)) => Ok((input.substring_char(e, s.len()), v)),
        Err(x) => Err(x),
    }
}

/// As many derived attributes as follow one another from `j`.
pub open spec fn attr_list(s: Seq<char>, j: int) -> (int, Seq<DerivedAttributeView>)
    decreases s.len() - j,
{
    match derived_attr_spec(s, j) {
        Ok((e, a)) => if j < e <= s.len() {
            let (e2, rest) = attr_list(s, e);
            (e2, seq![a] + rest)
        } else {
            (j, Seq::empty())
        },
        Err(_) => (j, Seq::empty()),
    }
}

pub open spec fn derive_keyword() -> Seq<char> {
    seq!['D', 'E', 'R', 'I', 'V', 'E']
}

/// derive_clause = `DERIVE` derived_attr { derived_attr } .
pub open spec fn derive_clause_spec(s: Seq<char>, i: int) -> Scan<Seq<DerivedAttributeView>> {
    let start = gap(s, i);
    let p = start + 6;
    if !(0 <= start && p <= s.len() && is_keyword(s.subrange(start, p), derive_keyword())) || (p < s.len() && in_class(
        CharClass::Word,
        s[p],
    )) {
        Err(TokenError::Mismatch)
    } else {
        let (e, attrs) = attr_list(s, p);
        if attrs.len() == 0 {
            Err(TokenError::Mismatch)
        } else {
            Ok((e, attrs))
        }
    }
}

fn scan_derive_keyword(s: &Vec<char>, start: usize) -> (r: bool)
    requires
        start <= s@.len(),
    ensures
        r == (start + 6 <= s@.len() && is_keyword(s@.subrange(start as int, start + 6), derive_keyword())),
{
    if s.len() - start < 6 {
        return false;
    }
    let word = collect_range(s, start, start + 6);
    let expected = vec!['D', 'E', 'R', 'I', 'V', 'E'];
    assert(expected@ =~= derive_keyword());
    is_word(&word, &expected)
}

pub(crate) fn scan_derive_clause(s: &Vec<char>, i: usize) -> (r: Result<(usize, DeriveClause), TokenError>)
    requires
        i <= s@.len(),
    ensures
        match derive_clause_spec(s@, i as int) {
            Ok((e, v)) => match r {
                Ok((e2, v2)) => e2 == e && v2@ == v && i <= e <= s@.len(),
                Err(_) => false,
            },
            Err(x) => r == Err::<(usize, DeriveClause), TokenError>(x),
        },
{
    let n = s.len();
    let start = scan_run(s, i, CharClass::Space);
    if !scan_derive_keyword(s, start) {
        return Err(TokenError::Mismatch);
    }
    let p = start + 6;
    if p < s.len() && char_in_class(CharClass::Word, s[p]) {
        return Err(TokenError::Mismatch);
    }
    let mut attributes: Vec<DerivedAttribute> = Vec::new();
    let mut j: usize = p;
    loop
        invariant
            i <= p <= j <= s@.len(),
            attr_list(s@, p as int) == (attr_list(s@, j as int).0, attr_views(attributes@) + attr_list(
                s@,
                j as int,
            ).1),
        ensures
            i <= p <= j <= s@.len(),
            attr_list(s@, p as int) == (j as int, attr_views(attributes@)),
        decreases s@.len() - j,
    {
        match scan_derived_attr(s, j) {
            Ok((e, a)) => {
                let ghost prev = attributes@;
                let ghost tail = attr_list(s@, e as int);
                proof {
                    assert(attr_list(s@, j as int) == (tail.0, seq![a@] + tail.1));
                }
                attributes.push(a);
                proof {
                    assert(attr_views(attributes@) =~= attr_views(prev).push(a@));
                    assert(attr_views(prev) + (seq![a@] + tail.1) =~= attr_views(prev).push(a@) + tail.1);
                }
                j = e;
            },
            Err(_) => {
                proof {
                    assert(attr_list(s@, j as int) == (j as int, Seq::<DerivedAttributeView>::empty()));
                    assert(attr_views(attributes@) + Seq::<DerivedAttributeView>::empty() =~= attr_views(
                        attributes@,
                    ));
                }
                break;
            },
        }
    }
    if attributes.len() == 0 {
        return Err(TokenError::Mismatch);
    }
    Ok((j, DeriveClause { attributes }))
}

/// Reads a `DERIVE` clause; the rest of the input follows its last attribute.
pub fn derive_clause(input: &str) -> (r: Result<(&str, DeriveClause), TokenError>)
    ensures
        match derive_clause_spec(input@, 0) {
            Ok((e, v)) => match r {
                Ok((rest, v2)) => rest@ == input@.subrange(e, input@.len() as int) && v2@ == v,
                Err(_) => false,
            },
            Err(x) => r == Err::<(&str, DeriveClause), TokenError>(x),
        },
{
    let s = chars_of(input);
    match scan_derive_clause(&s, 0) {
        Ok((e, v)) => Ok((input.substring_char(e, s.len()), v)),
        Err(x) => Err(x),
    }
}

} // verus!
