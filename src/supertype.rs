//! The supertype expression of an EXPRESS `SUPERTYPE OF ( ... )` clause.
//!
//! supertype_expression = supertype_factor { ANDOR supertype_factor } .
//! supertype_factor = supertype_term { AND supertype_term } .
//! supertype_term = entity_ref | one_of | `(` supertype_expression `)` .
//! one_of = ONEOF `(` supertype_expression { `,` supertype_expression } `)` .
//!
//! `ANDOR` and `AND` group to the left; `ONEOF` of several operands nests to the right.
use crate::ast::SuperTypeExpr;
use crate::chars::{chars_of, collect_range, is_alpha, run_end, scan_run, CharClass};
use crate::token::{at, gap, map_scan, Scan, TokenError};
use vstd::prelude::*;

verus! {

pub enum ExprView {
    Reference(Seq<char>),
    OneOf(Box<ExprView>, Box<ExprView>),
    And(Box<ExprView>, Box<ExprView>),
    AndOr(Box<ExprView>, Box<ExprView>),
}

pub open spec fn expr_view(e: &SuperTypeExpr) -> ExprView
    decreases e,
{
    match e {
        SuperTypeExpr::Reference(n) => ExprView::Reference(n@),
        SuperTypeExpr::OneOf(a, b) => ExprView::OneOf(Box::new(expr_view(&**a)), Box::new(expr_view(&**b))),
        SuperTypeExpr::And(a, b) => ExprView::And(Box::new(expr_view(&**a)), Box::new(expr_view(&**b))),
        SuperTypeExpr::AndOr(a, b) => ExprView::AndOr(Box::new(expr_view(&**a)), Box::new(expr_view(&**b))),
    }
}

impl View for SuperTypeExpr {
    type V = ExprView;

    open spec fn view(&self) -> ExprView {
        expr_view(self)
    }
}

/// A word after any spaces: a letter, then letters, digits and `_`.
pub open spec fn word_spec(s: Seq<char>, i: int) -> Option<(int, Seq<char>)> {
    let p = gap(s, i);
    if 0 <= p < s.len() && is_alpha(s[p]) {
        let e = run_end(s, p + 1, CharClass::Word);
        Some((e, s.subrange(p, e)))
    } else {
        None
    }
}

pub open spec fn kw_oneof() -> Seq<char> {
    seq!['O', 'N', 'E', 'O', 'F']
}

pub open spec fn kw_and() -> Seq<char> {
    seq!['A', 'N', 'D']
}

pub open spec fn kw_andor() -> Seq<char> {
    seq!['A', 'N', 'D', 'O', 'R']
}

/// `c` is the capital letter `k` or its lower-case form.
pub open spec fn same_letter(c: char, k: char) -> bool {
    c == k || ('A' <= k && k <= 'Z' && c as u32 == k as u32 + 32)
}

/// The word `x` is the keyword `w` (written in capitals), in any mix of cases.
pub open spec fn is_keyword(x: Seq<char>, w: Seq<char>) -> bool {
    x.len() == w.len() && forall|m: int| 0 <= m < x.len() ==> same_letter(#[trigger] x[m], w[m])
}

/// The position after the keyword `w`, where the next word is `w`.
pub open spec fn keyword_at(s: Seq<char>, i: int, w: Seq<char>) -> Option<int> {
    match word_spec(s, i) {
        Some((e, x)) => if is_keyword(x, w) {
            Some(e)
        } else {
            None
        },
        None => None,
    }
}

/// supertype_expression
pub open spec fn expr_spec(s: Seq<char>, i: int) -> Scan<ExprView>
    decreases s.len() - i, 2int,
{
    match factor_spec(s, i) {
        Ok((e, a)) => if i < e <= s.len() {
            andor_tail(s, e, a)
        } else {
            Err(TokenError::Mismatch)
        },
        Err(x) => Err(x),
    }
}

/// `{ ANDOR supertype_factor }` after the operand `acc`.
pub open spec fn andor_tail(s: Seq<char>, j: int, acc: ExprView) -> Scan<ExprView>
    decreases s.len() - j, 3int,
{
    match keyword_at(s, j, kw_andor()) {
        Some(k) => if j < k <= s.len() {
            match factor_spec(s, k) {
                Ok((e, b)) => if j < e <= s.len() {
                    andor_tail(s, e, ExprView::AndOr(Box::new(acc), Box::new(b)))
                } else {
                    Err(TokenError::Mismatch)
                },
                Err(x) => Err(x),
            }
        } else {
            Err(TokenError::Mismatch)
        },
        None => Ok((j, acc)),
    }
}

/// supertype_factor
pub open spec fn factor_spec(s: Seq<char>, i: int) -> Scan<ExprView>
    decreases s.len() - i, 1int,
{
    match term_spec(s, i) {
        Ok((e, a)) => if i < e <= s.len() {
            and_tail(s, e, a)
        } else {
            Err(TokenError::Mismatch)
        },
        Err(x) => Err(x),
    }
}

/// `{ AND supertype_term }` after the operand `acc`.
pub open spec fn and_tail(s: Seq<char>, j: int, acc: ExprView) -> Scan<ExprView>
    decreases s.len() - j, 2int,
{
    match keyword_at(s, j, kw_and()) {
        Some(k) => if j < k <= s.len() {
            match term_spec(s, k) {
                Ok((e, b)) => if j < e <= s.len() {
                    and_tail(s, e, ExprView::And(Box::new(acc), Box::new(b)))
                } else {
                    Err(TokenError::Mismatch)
                },
                Err(x) => Err(x),
            }
        } else {
            Err(TokenError::Mismatch)
        },
        None => Ok((j, acc)),
    }
}

/// supertype_term
pub open spec fn term_spec(s: Seq<char>, i: int) -> Scan<ExprView>
    decreases s.len() - i, 0int,
{
    let p = gap(s, i);
    if !(0 <= i <= p <= s.len()) {
        Err(TokenError::Mismatch)
    } else if at(s, p, '(') {
        match expr_spec(s, p + 1) {
            Ok((e, x)) => if at(s, gap(s, e), ')') {
                Ok((gap(s, e) + 1, x))
            } else {
                Err(TokenError::Mismatch)
            },
            Err(y) => Err(y),
        }
    } else {
        match word_spec(s, i) {
            Some((e, w)) => if is_keyword(w, kw_oneof()) {
                let q = gap(s, e);
                if at(s, q, '(') && i < q + 1 <= s.len() {
                    oneof_items(s, q + 1)
                } else {
                    Err(TokenError::Mismatch)
                }
            } else if is_keyword(w, kw_and()) || is_keyword(w, kw_andor()) {
                Err(TokenError::Mismatch)
            } else {
                Ok((e, ExprView::Reference(w)))
            },
            None => Err(TokenError::Mismatch),
        }
    }
}

/// The operands of `ONEOF` from `i` on, up to and including the `)`.
pub open spec fn oneof_items(s: Seq<char>, i: int) -> Scan<ExprView>
    decreases s.len() - i, 3int,
{
    match expr_spec(s, i) {
        Ok((e, x)) => {
            let j = gap(s, e);
            if at(s, j, ')') {
                Ok((j + 1, x))
            } else if at(s, j, ',') && i < j + 1 <= s.len() {
                map_scan(oneof_items(s, j + 1), |rest: ExprView| ExprView::OneOf(Box::new(x), Box::new(rest)))
            } else {
                Err(TokenError::Mismatch)
            }
        },
        Err(y) => Err(y),
    }
}

pub open spec fn same_expr(r: Result<(usize, SuperTypeExpr), TokenError>, sp: Scan<ExprView>, i: int, n: int) -> bool {
    match sp {
        Ok((e, v)) => match r {
            Ok((e2, v2)) => e2 == e && v2@ == v && i <= e <= n,
            Err(_) => false,
        },
        Err(x) => match r {
            Ok(_) => false,
            Err(y) => y == x,
        },
    }
}

pub(crate) fn scan_word(s: &Vec<char>, i: usize) -> (r: Option<(usize, String)>)
    requires
        i <= s@.len(),
    ensures
        match word_spec(s@, i as int) {
            Some((e, w)) => r matches Some((e2, w2)) && e2 == e && w2@ == w && i < e <= s@.len(),
            None => r is None,
        },
{
    let p = scan_run(s, i, CharClass::Space);
    if p < s.len() && (('A' <= s[p] && s[p] <= 'Z') || ('a' <= s[p] && s[p] <= 'z')) {
        let e = scan_run(s, p + 1, CharClass::Word);
        Some((e, collect_range(s, p, e)))
    } else {
        None
    }
}

pub(crate) fn is_word(w: &String, expected: &Vec<char>) -> (r: bool)
    ensures
        r == is_keyword(w@, expected@),
{
    let cs = chars_of(w.as_str());
    if cs.len() != expected.len() {
        return false;
    }
    let mut k: usize = 0;
    while k < cs.len()
        invariant
            cs@ == w@,
            cs@.len() == expected@.len(),
            k <= cs@.len(),
            forall|m: int| 0 <= m < k ==> same_letter(#[trigger] cs@[m], expected@[m]),
        decreases cs@.len() - k,
    {
        let c = cs[k];
        let x = expected[k];
        let same = c == x || ('A' <= x && x <= 'Z' && (c as u32) == (x as u32) + 32);
        if !same {
            return false;
        }
        k = k + 1;
    }
    true
}

/// The three keywords, as characters.
struct Keywords {
    oneof: Vec<char>,
    and: Vec<char>,
    andor: Vec<char>,
}

impl Keywords {
    spec fn wf(&self) -> bool {
        self.oneof@ == kw_oneof() && self.and@ == kw_and() && self.andor@ == kw_andor()
    }
}

pub(crate) fn scan_keyword_at(s: &Vec<char>, j: usize, w: &Vec<char>) -> (r: Option<usize>)
    requires
        j <= s@.len(),
    ensures
        match keyword_at(s@, j as int, w@) {
            Some(k) => r matches Some(k2) && k2 == k && j < k <= s@.len(),
            None => r is None,
        },
{
    match scan_word(s, j) {
        Some((e, x)) => {
            if is_word(&x, w) {
                Some(e)
            } else {
                None
            }
        },
        None => None,
    }
}

fn scan_expr(s: &Vec<char>, i: usize, kw: &Keywords) -> (r: Result<(usize, SuperTypeExpr), TokenError>)
    requires
        i <= s@.len(),
        kw.wf(),
    ensures
        same_expr(r, expr_spec(s@, i as int), i as int, s@.len() as int),
    decreases s@.len() - i, 2int,
{
    match scan_factor(s, i, kw) {
        Ok((e, a)) => {
            if i < e {
                scan_andor_tail(s, e, a, kw)
            } else {
                Err(TokenError::Mismatch)
            }
        },
        Err(x) => Err(x),
    }
}

fn scan_andor_tail(s: &Vec<char>, j: usize, acc: SuperTypeExpr, kw: &Keywords) -> (r: Result<
    (usize, SuperTypeExpr),
    TokenError,
>)
    requires
        j <= s@.len(),
        kw.wf(),
    ensures
        same_expr(r, andor_tail(s@, j as int, acc@), j as int, s@.len() as int),
    decreases s@.len() - j, 3int,
{
    match scan_keyword_at(s, j, &kw.andor) {
        Some(k) => match scan_factor(s, k, kw) {
            Ok((e, b)) => {
                if j < e {
                    let ghost av = acc@;
                    let ghost bv = b@;
                    let next = SuperTypeExpr::AndOr(Box::new(acc), Box::new(b));
                    assert(next@ == ExprView::AndOr(Box::new(av), Box::new(bv)));
                    scan_andor_tail(s, e, next, kw)
                } else {
                    Err(TokenError::Mismatch)
                }
            },
            Err(x) => Err(x),
        },
        None => Ok((j, acc)),
    }
}

fn scan_factor(s: &Vec<char>, i: usize, kw: &Keywords) -> (r: Result<(usize, SuperTypeExpr), TokenError>)
    requires
        i <= s@.len(),
        kw.wf(),
    ensures
        same_expr(r, factor_spec(s@, i as int), i as int, s@.len() as int),
    decreases s@.len() - i, 1int,
{
    match scan_term(s, i, kw) {
        Ok((e, a)) => {
            if i < e {
                scan_and_tail(s, e, a, kw)
            } else {
                Err(TokenError::Mismatch)
            }
        },
        Err(x) => Err(x),
    }
}

fn scan_and_tail(s: &Vec<char>, j: usize, acc: SuperTypeExpr, kw: &Keywords) -> (r: Result<
    (usize, SuperTypeExpr),
    TokenError,
>)
    requires
        j <= s@.len(),
        kw.wf(),
    ensures
        same_expr(r, and_tail(s@, j as int, acc@), j as int, s@.len() as int),
    decreases s@.len() - j, 2int,
{
    match scan_keyword_at(s, j, &kw.and) {
        Some(k) => match scan_term(s, k, kw) {
            Ok((e, b)) => {
                if j < e {
                    let ghost av = acc@;
                    let ghost bv = b@;
                    let next = SuperTypeExpr::And(Box::new(acc), Box::new(b));
                    assert(next@ == ExprView::And(Box::new(av), Box::new(bv)));
                    scan_and_tail(s, e, next, kw)
                } else {
                    Err(TokenError::Mismatch)
                }
            },
            Err(x) => Err(x),
        },
        None => Ok((j, acc)),
    }
}

fn scan_term(s: &Vec<char>, i: usize, kw: &Keywords) -> (r: Result<(usize, SuperTypeExpr), TokenError>)
    requires
        i <= s@.len(),
        kw.wf(),
    ensures
        same_expr(r, term_spec(s@, i as int), i as int, s@.len() as int),
    decreases s@.len() - i, 0int,
{
    let p = scan_run(s, i, CharClass::Space);
    if p < s.len() && s[p] == '(' {
        match scan_expr(s, p + 1, kw) {
            Ok((e, x)) => {
                let q = scan_run(s, e, CharClass::Space);
                if q < s.len() && s[q] == ')' {
                    Ok((q + 1, x))
                } else {
                    Err(TokenError::Mismatch)
                }
            },
            Err(y) => Err(y),
        }
    } else {
        match scan_word(s, i) {
            Some((e, w)) => {
                if is_word(&w, &kw.oneof) {
                    let q = scan_run(s, e, CharClass::Space);
                    if q < s.len() && s[q] == '(' {
                        scan_oneof_items(s, q + 1, kw)
                    } else {
                        Err(TokenError::Mismatch)
                    }
                } else if is_word(&w, &kw.and) || is_word(&w, &kw.andor) {
                    Err(TokenError::Mismatch)
                } else {
                    Ok((e, SuperTypeExpr::Reference(w)))
                }
            },
            None => Err(TokenError::Mismatch),
        }
    }
}

fn scan_oneof_items(s: &Vec<char>, i: usize, kw: &Keywords) -> (r: Result<(usize, SuperTypeExpr), TokenError>)
    requires
        i <= s@.len(),
        kw.wf(),
    ensures
        same_expr(r, oneof_items(s@, i as int), i as int, s@.len() as int),
    decreases s@.len() - i, 3int,
{
    match scan_expr(s, i, kw) {
        Ok((e, x)) => {
            let j = scan_run(s, e, CharClass::Space);
            if j < s.len() && s[j] == ')' {
                Ok((j + 1, x))
            } else if j < s.len() && s[j] == ',' {
                match scan_oneof_items(s, j + 1, kw) {
                    Ok((e2, rest)) => {
                        let ghost xv = x@;
                        let ghost rv = rest@;
                        let r = SuperTypeExpr::OneOf(Box::new(x), Box::new(rest));
                        assert(r@ == ExprView::OneOf(Box::new(xv), Box::new(rv)));
                        Ok((e2, r))
                    },
                    Err(y) => Err(y),
                }
            } else {
                Err(TokenError::Mismatch)
            }
        },
        Err(y) => Err(y),
    }
}

pub(crate) fn scan_supertype_expression(s: &Vec<char>, i: usize) -> (r: Result<(usize, SuperTypeExpr), TokenError>)
    requires
        i <= s@.len(),
    ensures
        same_expr(r, expr_spec(s@, i as int), i as int, s@.len() as int),
{
    let kw = Keywords {
        oneof: vec!['O', 'N', 'E', 'O', 'F'],
        and: vec!['A', 'N', 'D'],
        andor: vec!['A', 'N', 'D', 'O', 'R'],
    };
    assert(kw.oneof@ =~= kw_oneof());
    assert(kw.and@ =~= kw_and());
    assert(kw.andor@ =~= kw_andor());
    scan_expr(s, i, &kw)
}

/// Reads a supertype expression, after any spaces.
pub fn supertype_expression(input: &str) -> (r: Result<(&str, SuperTypeExpr), TokenError>)
    ensures
        match expr_spec(input@, 0) {
            Ok((e, v)) => match r {
                Ok((rest, v2)) => rest@ == input@.subrange(e, input@.len() as int) && v2@ == v,
                Err(_) => false,
            },
            Err(x) => r == Err::<(&str, SuperTypeExpr), TokenError>(x),
        },
{
    let s = chars_of(input);
    match scan_supertype_expression(&s, 0) {
        Ok((e, v)) => Ok((input.substring_char(e, s.len()), v)),
        Err(x) => Err(x),
    }
}

} // verus!
