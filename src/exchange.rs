//! Parameters, records and entity instances of the exchange-file (Part 21) syntax.
//!
//! Spaces may stand between any two tokens.
use crate::chars::{char_in_class, chars_of, collect_range, is_digit, is_upper, lemma_run_end, run_end, scan_run, CharClass};
use crate::derive::{expr_end, scan_expr_end, scan_trim_back, trim_back};
use crate::instances::{
    param_view, params_view, record_view, records_view, EntityInstance, InstanceView, ParamView,
    Parameter, Record, RecordView,
};
use crate::token::{
    angle_spec, at, enumeration_spec, gap, instance_name_spec, lhs_spec, map_scan, scan_angle, scan_lhs, Name,
    NameView, integer_spec, scan_instance_name, keyword_spec, real_spec, rhs_spec, scan_enumeration,
    scan_integer, scan_keyword, scan_real, scan_rhs, scan_string, string_spec, Scan, TokenError,
};
use vstd::prelude::*;

verus! {

/// parameter = typed_parameter | untyped_parameter | omitted_parameter .
pub open spec fn param_spec(s: Seq<char>, i: int) -> Scan<ParamView>
    decreases s.len() - i, 0int,
{
    let p = gap(s, i);
    if !(0 <= i <= p < s.len()) {
        Err(TokenError::Mismatch)
    } else {
        let c = s[p];
        if c == '$' {
            Ok((p + 1, ParamView::Omitted))
        } else if c == '*' {
            Ok((p + 1, ParamView::NotProvided))
        } else if c == '(' {
            let k = gap(s, p + 1);
            if at(s, k, ')') {
                Ok((k + 1, ParamView::List(Seq::empty())))
            } else if i < k <= s.len() {
                map_scan(items_spec(s, k), |xs: Seq<ParamView>| ParamView::List(xs))
            } else {
                Err(TokenError::Mismatch)
            }
        } else if c == '\'' {
            map_scan(string_spec(s, p), |t: Seq<char>| ParamView::String(t))
        } else if c == '.' {
            map_scan(enumeration_spec(s, p), |t: Seq<char>| ParamView::Enumeration(t))
        } else if c == '#' || c == '@' {
            map_scan(rhs_spec(s, p), |n| ParamView::Ref(n))
        } else if c == '!' || is_upper(c) {
            match keyword_spec(s, p) {
                Ok((e, kw)) => {
                    let j = gap(s, e);
                    if at(s, j, '(') && i < j + 1 <= s.len() {
                        match param_spec(s, j + 1) {
                            Ok((e2, inner)) => {
                                let j2 = gap(s, e2);
                                if at(s, j2, ')') {
                                    Ok((j2 + 1, ParamView::Typed(kw, Box::new(inner))))
                                } else {
                                    Err(TokenError::Mismatch)
                                }
                            },
                            Err(x) => Err(x),
                        }
                    } else {
                        Err(TokenError::Mismatch)
                    }
                },
                Err(x) => Err(x),
            }
        } else if c == '+' || c == '-' || is_digit(c) {
            match real_spec(s, p) {
                Ok((e, r)) => Ok((e, ParamView::Real(r))),
                Err(TokenError::Mismatch) => map_scan(integer_spec(s, p), |x: i64| ParamView::Integer(x)),
                Err(x) => Err(x),
            }
        } else {
            Err(TokenError::Mismatch)
        }
    }
}

/// The parameters of a non-empty list from `i` on, up to and including the `)`.
pub open spec fn items_spec(s: Seq<char>, i: int) -> Scan<Seq<ParamView>>
    decreases s.len() - i, 1int,
{
    match param_spec(s, i) {
        Ok((e, x)) => {
            let j = gap(s, e);
            if at(s, j, ')') {
                Ok((j + 1, seq![x]))
            } else if at(s, j, ',') && i < j + 1 <= s.len() {
                map_scan(items_spec(s, j + 1), |xs: Seq<ParamView>| seq![x] + xs)
            } else {
                Err(TokenError::Mismatch)
            }
        },
        Err(y) => Err(y),
    }
}

pub(crate) fn scan_param(s: &Vec<char>, i: usize) -> (r: Result<(usize, Parameter), TokenError>)
    requires
        i <= s@.len(),
    ensures
        match param_spec(s@, i as int) {
            Ok((e, v)) => match r {
                Ok((e2, v2)) => e2 == e && v2@ == v && i <= e <= s@.len(),
                Err(_) => false,
            },
            Err(x) => r == Err::<(usize, Parameter), TokenError>(x),
        },
    decreases s@.len() - i, 0int,
{
    let p = scan_run(s, i, CharClass::Space);
    if p >= s.len() {
        return Err(TokenError::Mismatch);
    }
    let c = s[p];
    if c == '$' {
        Ok((p + 1, Parameter::Omitted))
    } else if c == '*' {
        Ok((p + 1, Parameter::NotProvided))
    } else if c == '(' {
        let k = scan_run(s, p + 1, CharClass::Space);
        if k < s.len() && s[k] == ')' {
            let v: Vec<Parameter> = Vec::new();
            let r = Parameter::List(v);
            assert(r@ == ParamView::List(Seq::empty())) by {
                if let ParamView::List(xs) = param_view(&r) {
                    assert(xs =~= Seq::<ParamView>::empty());
                }
            }
            Ok((k + 1, r))
        } else {
            match scan_items(s, k) {
                Ok((e, v)) => {
                    let ghost vv = params_view(v@);
                    let r = Parameter::List(v);
                    proof {
                        if let ParamView::List(xs) = param_view(&r) {
                            assert(xs =~= vv);
                        }
                    }
                    Ok((e, r))
                },
                Err(x) => Err(x),
            }
        }
    } else if c == '\'' {
        match scan_string(s, p) {
            Ok((e, t)) => Ok((e, Parameter::String(t))),
            Err(x) => Err(x),
        }
    } else if c == '.' {
        match scan_enumeration(s, p) {
            Ok((e, t)) => Ok((e, Parameter::Enumeration(t))),
            Err(x) => Err(x),
        }
    } else if c == '#' || c == '@' {
        match scan_rhs(s, p) {
            Ok((e, n)) => Ok((e, Parameter::Ref(n))),
            Err(x) => Err(x),
        }
    } else if c == '!' || ('A' <= c && c <= 'Z') || c == '_' {
        match scan_keyword(s, p) {
            Ok((e, kw)) => {
                let j = scan_run(s, e, CharClass::Space);
                if j < s.len() && s[j] == '(' {
                    match scan_param(s, j + 1) {
                        Ok((e2, inner)) => {
                            let j2 = scan_run(s, e2, CharClass::Space);
                            if j2 < s.len() && s[j2] == ')' {
                                Ok((j2 + 1, Parameter::Typed(kw, Box::new(inner))))
                            } else {
                                Err(TokenError::Mismatch)
                            }
                        },
                        Err(x) => Err(x),
                    }
                } else {
                    Err(TokenError::Mismatch)
                }
            },
            Err(x) => Err(x),
        }
    } else if c == '+' || c == '-' || char_in_class(CharClass::Digit, c) {
        match scan_real(s, p) {
            Ok((e, r)) => Ok((e, Parameter::Real(r))),
            Err(TokenError::Mismatch) => match scan_integer(s, p) {
                Ok((e, x)) => Ok((e, Parameter::Integer(x))),
                Err(x) => Err(x),
            },
            Err(x) => Err(x),
        }
    } else {
        Err(TokenError::Mismatch)
    }
}

pub(crate) fn scan_items(s: &Vec<char>, i: usize) -> (r: Result<(usize, Vec<Parameter>), TokenError>)
    requires
        i <= s@.len(),
    ensures
        match items_spec(s@, i as int) {
            Ok((e, v)) => match r {
                Ok((e2, v2)) => e2 == e && params_view(v2@) == v && i < e <= s@.len(),
                Err(_) => false,
            },
            Err(x) => r == Err::<(usize, Vec<Parameter>), TokenError>(x),
        },
    decreases s@.len() - i, 1int,
{
    match scan_param(s, i) {
        Ok((e, x)) => {
            let j = scan_run(s, e, CharClass::Space);
            if j < s.len() && s[j] == ')' {
                let ghost xv = x@;
                let v: Vec<Parameter> = vec![x];
                assert(params_view(v@) =~= seq![xv]);
                Ok((j + 1, v))
            } else if j < s.len() && s[j] == ',' {
                match scan_items(s, j + 1) {
                    Ok((e2, mut rest)) => {
                        let ghost xv = x@;
                        let ghost rv = params_view(rest@);
                        let mut v: Vec<Parameter> = vec![x];
                        v.append(&mut rest);
                        assert(params_view(v@) =~= seq![xv] + rv);
                        Ok((e2, v))
                    },
                    Err(y) => Err(y),
                }
            } else {
                Err(TokenError::Mismatch)
            }
        },
        Err(y) => Err(y),
    }
}

/// Reads one parameter, after any spaces.
pub fn parameter(input: &str) -> (r: Result<(&str, Parameter), TokenError>)
    ensures
        match param_spec(input@, 0) {
            Ok((e, v)) => match r {
                Ok((rest, v2)) => rest@ == input@.subrange(e, input@.len() as int) && v2@ == v,
                Err(_) => false,
            },
            Err(x) => r == Err::<(&str, Parameter), TokenError>(x),
        },
{
    let s = chars_of(input);
    match scan_param(&s, 0) {
        Ok((e, v)) => Ok((input.substring_char(e, s.len()), v)),
        Err(x) => Err(x),
    }
}

/// record = keyword `(` [ parameter { `,` parameter } ] `)` ; the parameters form one list.
pub open spec fn record_spec(s: Seq<char>, i: int) -> Scan<RecordView> {
    match keyword_spec(s, gap(s, i)) {
        Ok((e, kw)) => {
            let j = gap(s, e);
            if at(s, j, '(') {
                let k = gap(s, j + 1);
                if at(s, k, ')') {
                    Ok((k + 1, (kw, ParamView::List(Seq::empty()))))
                } else {
                    map_scan(items_spec(s, k), |xs: Seq<ParamView>| (kw, ParamView::List(xs)))
                }
            } else {
                Err(TokenError::Mismatch)
            }
        },
        Err(x) => Err(x),
    }
}

/// One or more records, up to and including the `)` that closes them.
pub open spec fn records_spec(s: Seq<char>, i: int) -> Scan<Seq<RecordView>>
    decreases s.len() - i,
{
    match record_spec(s, i) {
        Ok((e, r)) => {
            let j = gap(s, e);
            if at(s, j, ')') {
                Ok((j + 1, seq![r]))
            } else if i < j <= s.len() {
                map_scan(records_spec(s, j), |rs: Seq<RecordView>| seq![r] + rs)
            } else {
                Err(TokenError::Mismatch)
            }
        },
        Err(x) => Err(x),
    }
}

/// The value followed by `;`.
pub open spec fn then_semicolon<V>(s: Seq<char>, r: Scan<V>) -> Scan<V> {
    match r {
        Ok((e, v)) => if at(s, gap(s, e), ';') {
            Ok((gap(s, e) + 1, v))
        } else {
            Err(TokenError::Mismatch)
        },
        Err(x) => Err(x),
    }
}

/// `#id = record ;` or `#id = ( record record ... ) ;`.
pub open spec fn instance_spec(s: Seq<char>, i: int) -> Scan<InstanceView> {
    match instance_name_spec(s, gap(s, i), '#') {
        Ok((e, id)) => {
            let j = gap(s, e);
            if at(s, j, '=') {
                let k = gap(s, j + 1);
                if at(s, k, '(') {
                    then_semicolon(
                        s,
                        map_scan(records_spec(s, k + 1), |rs: Seq<RecordView>| InstanceView::Complex { id, records: rs }),
                    )
                } else {
                    then_semicolon(
                        s,
                        map_scan(record_spec(s, k), |r: RecordView| InstanceView::Simple { id, record: r }),
                    )
                }
            } else {
                Err(TokenError::Mismatch)
            }
        },
        Err(x) => Err(x),
    }
}

pub(crate) fn scan_record(s: &Vec<char>, i: usize) -> (r: Result<(usize, Record), TokenError>)
    requires
        i <= s@.len(),
    ensures
        match record_spec(s@, i as int) {
            Ok((e, v)) => match r {
                Ok((e2, v2)) => e2 == e && record_view(&v2) == v && i <= e <= s@.len(),
                Err(_) => false,
            },
            Err(x) => r == Err::<(usize, Record), TokenError>(x),
        },
{
    let p = scan_run(s, i, CharClass::Space);
    match scan_keyword(s, p) {
        Ok((e, keyword)) => {
            let j = scan_run(s, e, CharClass::Space);
            if j < s.len() && s[j] == '(' {
                let k = scan_run(s, j + 1, CharClass::Space);
                if k < s.len() && s[k] == ')' {
                    let parameter = Parameter::List(Vec::new());
                    assert(parameter@ == ParamView::List(Seq::empty())) by {
                        if let ParamView::List(xs) = param_view(&parameter) {
                            assert(xs =~= Seq::<ParamView>::empty());
                        }
                    }
                    Ok((k + 1, Record { keyword, parameter }))
                } else {
                    match scan_items(s, k) {
                        Ok((e2, v)) => {
                            let ghost vv = params_view(v@);
                            let parameter = Parameter::List(v);
                            proof {
                                if let ParamView::List(xs) = param_view(&parameter) {
                                    assert(xs =~= vv);
                                }
                            }
                            Ok((e2, Record { keyword, parameter }))
                        },
                        Err(x) => Err(x),
                    }
                }
            } else {
                Err(TokenError::Mismatch)
            }
        },
        Err(x) => Err(x),
    }
}

pub(crate) fn scan_records(s: &Vec<char>, i: usize) -> (r: Result<(usize, Vec<Record>), TokenError>)
    requires
        i <= s@.len(),
    ensures
        match records_spec(s@, i as int) {
            Ok((e, v)) => match r {
                Ok((e2, v2)) => e2 == e && records_view(v2@) == v && i <= e <= s@.len(),
                Err(_) => false,
            },
            Err(x) => r == Err::<(usize, Vec<Record>), TokenError>(x),
        },
    decreases s@.len() - i,
{
    match scan_record(s, i) {
        Ok((e, first)) => {
            let j = scan_run(s, e, CharClass::Space);
            let ghost fv = record_view(&first);
            if j < s.len() && s[j] == ')' {
                let v: Vec<Record> = vec![first];
                assert(records_view(v@) =~= seq![fv]);
                Ok((j + 1, v))
            } else if i < j {
                match scan_records(s, j) {
                    Ok((e2, mut rest)) => {
                        let ghost rv = records_view(rest@);
                        let mut v: Vec<Record> = vec![first];
                        v.append(&mut rest);
                        assert(records_view(v@) =~= seq![fv] + rv);
                        Ok((e2, v))
                    },
                    Err(x) => Err(x),
                }
            } else {
                Err(TokenError::Mismatch)
            }
        },
        Err(x) => Err(x),
    }
}

pub(crate) fn scan_instance(s: &Vec<char>, i: usize) -> (r: Result<(usize, EntityInstance), TokenError>)
    requires
        i <= s@.len(),
    ensures
        match instance_spec(s@, i as int) {
            Ok((e, v)) => match r {
                Ok((e2, v2)) => e2 == e && v2@ == v && i <= e <= s@.len(),
                Err(_) => false,
            },
            Err(x) => r == Err::<(usize, EntityInstance), TokenError>(x),
        },
{
    let p = scan_run(s, i, CharClass::Space);
    let (e, id) = match scan_instance_name(s, p, '#') {
        Ok(found) => found,
        Err(x) => {
            return Err(x);
        },
    };
    let j = scan_run(s, e, CharClass::Space);
    if !(j < s.len() && s[j] == '=') {
        return Err(TokenError::Mismatch);
    }
    let k = scan_run(s, j + 1, CharClass::Space);
    let (e2, instance) = if k < s.len() && s[k] == '(' {
        match scan_records(s, k + 1) {
            Ok((e2, records)) => (e2, EntityInstance::Complex { id, records }),
            Err(x) => {
                return Err(x);
            },
        }
    } else {
        match scan_record(s, k) {
            Ok((e2, record)) => (e2, EntityInstance::Simple { id, record }),
            Err(x) => {
                return Err(x);
            },
        }
    };
    let m = scan_run(s, e2, CharClass::Space);
    if m < s.len() && s[m] == ';' {
        Ok((m + 1, instance))
    } else {
        Err(TokenError::Mismatch)
    }
}

/// Reads one record, after any spaces.
pub fn record(input: &str) -> (r: Result<(&str, Record), TokenError>)
    ensures
        match record_spec(input@, 0) {
            Ok((e, v)) => match r {
                Ok((rest, v2)) => rest@ == input@.subrange(e, input@.len() as int) && record_view(&v2) == v,
                Err(_) => false,
            },
            Err(x) => r == Err::<(&str, Record), TokenError>(x),
        },
{
    let s = chars_of(input);
    match scan_record(&s, 0) {
        Ok((e, v)) => Ok((input.substring_char(e, s.len()), v)),
        Err(x) => Err(x),
    }
}

/// Reads one entity instance, simple or complex, after any spaces.
pub fn entity_instance(input: &str) -> (r: Result<(&str, EntityInstance), TokenError>)
    ensures
        match instance_spec(input@, 0) {
            Ok((e, v)) => match r {
                Ok((rest, v2)) => rest@ == input@.subrange(e, input@.len() as int) && v2@ == v,
                Err(_) => false,
            },
            Err(x) => r == Err::<(&str, EntityInstance), TokenError>(x),
        },
{
    let s = chars_of(input);
    match scan_instance(&s, 0) {
        Ok((e, v)) => Ok((input.substring_char(e, s.len()), v)),
        Err(x) => Err(x),
    }
}

/// Whether the characters `w` stand in `s` at `i`.
pub open spec fn lit_at(s: Seq<char>, i: int, w: Seq<char>) -> bool {
    0 <= i && i + w.len() <= s.len() && s.subrange(i, i + w.len()) == w
}

fn scan_literal(s: &Vec<char>, i: usize, w: &Vec<char>) -> (r: bool)
    requires
        i <= s@.len(),
    ensures
        r == lit_at(s@, i as int, w@),
{
    if s.len() - i < w.len() {
        return false;
    }
    let n = s.len();
    let mut k: usize = 0;
    while k < w.len()
        invariant
            n == s@.len(),
            i + w@.len() <= s@.len(),
            k <= w@.len(),
            forall|m: int| 0 <= m < k ==> s@[i + m] == w@[m],
        decreases w@.len() - k,
    {
        assert(i + k < s@.len());
        if s[i + k] != w[k] {
            proof {
                if lit_at(s@, i as int, w@) {
                    assert(s@.subrange(i as int, i + w@.len())[k as int] == w@[k as int]);
                }
            }
            return false;
        }
        k = k + 1;
    }
    assert(s@.subrange(i as int, i + w@.len()) =~= w@);
    true
}

pub open spec fn word_header() -> Seq<char> {
    seq!['H', 'E', 'A', 'D', 'E', 'R']
}

pub open spec fn word_data() -> Seq<char> {
    seq!['D', 'A', 'T', 'A']
}

pub open spec fn word_endsec() -> Seq<char> {
    seq!['E', 'N', 'D', 'S', 'E', 'C']
}

pub open spec fn word_file_start() -> Seq<char> {
    seq!['I', 'S', 'O', '-', '1', '0', '3', '0', '3', '-', '2', '1']
}

pub open spec fn word_file_end() -> Seq<char> {
    seq!['E', 'N', 'D', '-', 'I', 'S', 'O', '-', '1', '0', '3', '0', '3', '-', '2', '1']
}

/// The word `w` after any spaces, then `;`; the position after the `;`.
pub open spec fn word_semicolon(s: Seq<char>, i: int, w: Seq<char>) -> Option<int> {
    let p = gap(s, i);
    let q = gap(s, p + w.len());
    if lit_at(s, p, w) && at(s, q, ';') {
        Some(q + 1)
    } else {
        None
    }
}

fn scan_word_semicolon(s: &Vec<char>, i: usize, w: &Vec<char>) -> (r: Option<usize>)
    requires
        i <= s@.len(),
    ensures
        match word_semicolon(s@, i as int, w@) {
            Some(e) => r matches Some(x) && x as int == e && i < e <= s@.len(),
            None => r is None,
        },
{
    let n = s.len();
    let p = scan_run(s, i, CharClass::Space);
    if !scan_literal(s, p, w) {
        return None;
    }
    assert(p + w@.len() <= s@.len());
    let q = scan_run(s, p + w.len(), CharClass::Space);
    if q < s.len() && s[q] == ';' {
        Some(q + 1)
    } else {
        None
    }
}

/// A record followed by `;`.
pub open spec fn header_record_spec(s: Seq<char>, i: int) -> Scan<RecordView> {
    then_semicolon(s, record_spec(s, i))
}

/// `HEADER ;` three records, each followed by `;`, then `ENDSEC ;`.
pub open spec fn header_spec(s: Seq<char>, i: int) -> Scan<Seq<RecordView>> {
    match word_semicolon(s, i, word_header()) {
        Some(a) => match header_record_spec(s, a) {
            Ok((b, r1)) => match header_record_spec(s, b) {
                Ok((c, r2)) => match header_record_spec(s, c) {
                    Ok((d, r3)) => match word_semicolon(s, d, word_endsec()) {
                        Some(e) => Ok((e, seq![r1, r2, r3])),
                        None => Err(TokenError::Mismatch),
                    },
                    Err(x) => Err(x),
                },
                Err(x) => Err(x),
            },
            Err(x) => Err(x),
        },
        None => Err(TokenError::Mismatch),
    }
}

/// Entity instances from `i` on, up to `ENDSEC ;`, which ends them.
pub open spec fn instances_spec(s: Seq<char>, i: int) -> Scan<Seq<InstanceView>>
    decreases s.len() - i,
{
    match word_semicolon(s, i, word_endsec()) {
        Some(e) => Ok((e, Seq::empty())),
        None => match instance_spec(s, i) {
            Ok((e, x)) => if i < e <= s.len() {
                map_scan(instances_spec(s, e), |xs: Seq<InstanceView>| seq![x] + xs)
            } else {
                Err(TokenError::Mismatch)
            },
            Err(y) => Err(y),
        },
    }
}

/// `DATA ;` entity instances `ENDSEC ;`.
pub open spec fn data_section_spec(s: Seq<char>, i: int) -> Scan<Seq<InstanceView>> {
    match word_semicolon(s, i, word_data()) {
        Some(a) => instances_spec(s, a),
        None => Err(TokenError::Mismatch),
    }
}

/// One or more data sections, then `END-ISO-10303-21 ;`.
pub open spec fn sections_spec(s: Seq<char>, i: int) -> Scan<Seq<Seq<InstanceView>>>
    decreases s.len() - i,
{
    match data_section_spec(s, i) {
        Ok((e, d)) => match word_semicolon(s, e, word_file_end()) {
            Some(f) => Ok((f, seq![d])),
            None => if i < e <= s.len() {
                map_scan(sections_spec(s, e), |ds: Seq<Seq<InstanceView>>| seq![d] + ds)
            } else {
                Err(TokenError::Mismatch)
            },
        },
        Err(x) => Err(x),
    }
}

pub open spec fn word_anchor() -> Seq<char> {
    seq!['A', 'N', 'C', 'H', 'O', 'R']
}

pub open spec fn word_reference() -> Seq<char> {
    seq!['R', 'E', 'F', 'E', 'R', 'E', 'N', 'C', 'E']
}

pub open spec fn word_signature() -> Seq<char> {
    seq!['S', 'I', 'G', 'N', 'A', 'T', 'U', 'R', 'E']
}

/// `= value ;` after position `i`: the value's text, trimmed, up to the first `;`
/// outside a quoted string, and the position after that `;`.
pub open spec fn assigned_text(s: Seq<char>, i: int) -> Option<(int, Seq<char>)> {
    let q = gap(s, i);
    if at(s, q, '=') {
        let a = gap(s, q + 1);
        let r = expr_end(s, a, false);
        let b = trim_back(s, a, r);
        if r < s.len() && b > a {
            Some((r + 1, s.subrange(a, b)))
        } else {
            None
        }
    } else {
        None
    }
}

/// Entries `<name> = value ;` up to `ENDSEC ;`.
pub open spec fn anchors_spec(s: Seq<char>, i: int) -> Scan<Seq<(Seq<char>, Seq<char>)>>
    decreases s.len() - i,
{
    match word_semicolon(s, i, word_endsec()) {
        Some(e) => Ok((e, Seq::empty())),
        None => match angle_spec(s, gap(s, i)) {
            Ok((e, name)) => match assigned_text(s, e) {
                Some((f, v)) => if i < f <= s.len() {
                    map_scan(anchors_spec(s, f), |xs: Seq<(Seq<char>, Seq<char>)>| seq![(name, v)] + xs)
                } else {
                    Err(TokenError::Mismatch)
                },
                None => Err(TokenError::Mismatch),
            },
            Err(x) => Err(x),
        },
    }
}

/// Entries `#id = <resource> ;` up to `ENDSEC ;`.
pub open spec fn references_spec(s: Seq<char>, i: int) -> Scan<Seq<(NameView, Seq<char>)>>
    decreases s.len() - i,
{
    match word_semicolon(s, i, word_endsec()) {
        Some(e) => Ok((e, Seq::empty())),
        None => match lhs_spec(s, gap(s, i)) {
            Ok((e, name)) => {
                let q = gap(s, e);
                if at(s, q, '=') {
                    match angle_spec(s, gap(s, q + 1)) {
                        Ok((f, uri)) => if at(s, gap(s, f), ';') && i < gap(s, f) + 1 <= s.len() {
                            map_scan(
                                references_spec(s, gap(s, f) + 1),
                                |xs: Seq<(NameView, Seq<char>)>| seq![(name, uri)] + xs,
                            )
                        } else {
                            Err(TokenError::Mismatch)
                        },
                        Err(x) => Err(x),
                    }
                } else {
                    Err(TokenError::Mismatch)
                }
            },
            Err(x) => Err(x),
        },
    }
}

/// `SIGNATURE content ENDSEC ;` sections, as many as follow; the content is kept as text.
pub open spec fn signatures_spec(s: Seq<char>, i: int) -> Scan<Seq<Seq<char>>>
    decreases s.len() - i,
{
    let p = gap(s, i);
    if !lit_at(s, p, word_signature()) {
        Ok((i, Seq::empty()))
    } else {
        let q = gap(s, p + 9);
        let e = run_end(s, q, CharClass::Base64);
        if q < e {
            match word_semicolon(s, e, word_endsec()) {
                Some(f) => if i < f <= s.len() {
                    map_scan(signatures_spec(s, f), |xs: Seq<Seq<char>>| seq![s.subrange(q, e)] + xs)
                } else {
                    Err(TokenError::Mismatch)
                },
                None => Err(TokenError::Mismatch),
            }
        } else {
            Err(TokenError::Mismatch)
        }
    }
}

/// What an exchange file holds.
pub struct ExchangeView {
    pub header: Seq<RecordView>,
    pub anchors: Seq<(Seq<char>, Seq<char>)>,
    pub references: Seq<(NameView, Seq<char>)>,
    pub data: Seq<Seq<InstanceView>>,
    pub signatures: Seq<Seq<char>>,
}

/// A whole exchange file: `ISO-10303-21 ;` header, an optional anchor section, an
/// optional reference section, data sections, `END-ISO-10303-21 ;`, then any
/// signature sections.
pub open spec fn exchange_file_spec(s: Seq<char>) -> Scan<ExchangeView> {
    match word_semicolon(s, 0, word_file_start()) {
        Some(a) => match header_spec(s, a) {
            Ok((b, h)) => {
                let anchors = match word_semicolon(s, b, word_anchor()) {
                    Some(x) => anchors_spec(s, x),
                    None => Ok((b, Seq::empty())),
                };
                match anchors {
                    Ok((c, an)) => {
                        let refs = match word_semicolon(s, c, word_reference()) {
                            Some(x) => references_spec(s, x),
                            None => Ok((c, Seq::empty())),
                        };
                        match refs {
                            Ok((d, rf)) => match sections_spec(s, d) {
                                Ok((f, ds)) => match signatures_spec(s, f) {
                                    Ok((g, sg)) => Ok(
                                        (g, ExchangeView { header: h, anchors: an, references: rf, data: ds, signatures: sg }),
                                    ),
                                    Err(x) => Err(x),
                                },
                                Err(x) => Err(x),
                            },
                            Err(x) => Err(x),
                        }
                    },
                    Err(x) => Err(x),
                }
            },
            Err(x) => Err(x),
        },
        None => Err(TokenError::Mismatch),
    }
}

pub open spec fn instances_view(v: Seq<EntityInstance>) -> Seq<InstanceView> {
    v.map_values(|x: EntityInstance| x@)
}

pub open spec fn sections_view(v: Seq<Vec<EntityInstance>>) -> Seq<Seq<InstanceView>> {
    v.map_values(|d: Vec<EntityInstance>| instances_view(d@))
}

/// The parsed form of an exchange file.
#[derive(Debug)]
pub struct ExchangeFile {
    /// The three header records, in order.
    pub header: Vec<Record>,
    /// The entries of the anchor section: each anchor name and its value as written.
    pub anchors: Vec<(String, String)>,
    /// The entries of the reference section: each name and its resource text.
    pub references: Vec<(Name, String)>,
    /// The entity instances of each data section, in source order.
    pub data: Vec<Vec<EntityInstance>>,
    /// The content of each signature section, kept as text.
    pub signatures: Vec<String>,
}

pub open spec fn pair_views(v: Seq<(String, String)>) -> Seq<(Seq<char>, Seq<char>)> {
    v.map_values(|x: (String, String)| (x.0@, x.1@))
}

pub open spec fn ref_views(v: Seq<(Name, String)>) -> Seq<(NameView, Seq<char>)> {
    v.map_values(|x: (Name, String)| (x.0@, x.1@))
}

pub open spec fn text_views(v: Seq<String>) -> Seq<Seq<char>> {
    v.map_values(|x: String| x@)
}

fn scan_assigned_text(s: &Vec<char>, i: usize) -> (r: Option<(usize, String)>)
    requires
        i <= s@.len(),
    ensures
        match assigned_text(s@, i as int) {
            Some((f, v)) => r matches Some((f2, v2)) && f2 == f && v2@ == v && i < f <= s@.len(),
            None => r is None,
        },
{
    let q = scan_run(s, i, CharClass::Space);
    if !(q < s.len() && s[q] == '=') {
        return None;
    }
    let a = scan_run(s, q + 1, CharClass::Space);
    let r = scan_expr_end(s, a);
    let b = scan_trim_back(s, a, r);
    if r < s.len() && b > a {
        Some((r + 1, collect_range(s, a, b)))
    } else {
        None
    }
}

fn scan_anchors(s: &Vec<char>, i: usize, endsec: &Vec<char>) -> (r: Result<(usize, Vec<(String, String)>), TokenError>)
    requires
        i <= s@.len(),
        endsec@ == word_endsec(),
    ensures
        match anchors_spec(s@, i as int) {
            Ok((e, v)) => r matches Ok((e2, v2)) && e2 == e && pair_views(v2@) == v && i <= e <= s@.len(),
            Err(x) => r == Err::<(usize, Vec<(String, String)>), TokenError>(x),
        },
    decreases s@.len() - i,
{
    if let Some(e) = scan_word_semicolon(s, i, endsec) {
        let v: Vec<(String, String)> = Vec::new();
        assert(pair_views(v@) =~= Seq::<(Seq<char>, Seq<char>)>::empty());
        return Ok((e, v));
    }
    let p = scan_run(s, i, CharClass::Space);
    match scan_angle(s, p) {
        Ok((e, name)) => match scan_assigned_text(s, e) {
            Some((f, val)) => match scan_anchors(s, f, endsec) {
                Ok((g, mut rest)) => {
                    let ghost x = (name@, val@);
                    let ghost rv = pair_views(rest@);
                    let mut v = vec![(name, val)];
                    v.append(&mut rest);
                    assert(pair_views(v@) =~= seq![x] + rv);
                    Ok((g, v))
                },
                Err(y) => Err(y),
            },
            None => Err(TokenError::Mismatch),
        },
        Err(x) => Err(x),
    }
}

fn scan_references(s: &Vec<char>, i: usize, endsec: &Vec<char>) -> (r: Result<(usize, Vec<(Name, String)>), TokenError>)
    requires
        i <= s@.len(),
        endsec@ == word_endsec(),
    ensures
        match references_spec(s@, i as int) {
            Ok((e, v)) => r matches Ok((e2, v2)) && e2 == e && ref_views(v2@) == v && i <= e <= s@.len(),
            Err(x) => r == Err::<(usize, Vec<(Name, String)>), TokenError>(x),
        },
    decreases s@.len() - i,
{
    if let Some(e) = scan_word_semicolon(s, i, endsec) {
        let v: Vec<(Name, String)> = Vec::new();
        assert(ref_views(v@) =~= Seq::<(NameView, Seq<char>)>::empty());
        return Ok((e, v));
    }
    let p = scan_run(s, i, CharClass::Space);
    match scan_lhs(s, p) {
        Ok((e, name)) => {
            let q = scan_run(s, e, CharClass::Space);
            if !(q < s.len() && s[q] == '=') {
                return Err(TokenError::Mismatch);
            }
            let a = scan_run(s, q + 1, CharClass::Space);
            match scan_angle(s, a) {
                Ok((f, uri)) => {
                    let c = scan_run(s, f, CharClass::Space);
                    if c < s.len() && s[c] == ';' {
                        match scan_references(s, c + 1, endsec) {
                            Ok((g, mut rest)) => {
                                let ghost x = (name@, uri@);
                                let ghost rv = ref_views(rest@);
                                let mut v = vec![(name, uri)];
                                v.append(&mut rest);
                                assert(ref_views(v@) =~= seq![x] + rv);
                                Ok((g, v))
                            },
                            Err(y) => Err(y),
                        }
                    } else {
                        Err(TokenError::Mismatch)
                    }
                },
                Err(y) => Err(y),
            }
        },
        Err(x) => Err(x),
    }
}

fn scan_signatures(s: &Vec<char>, i: usize, signature: &Vec<char>, endsec: &Vec<char>) -> (r: Result<(usize, Vec<String>), TokenError>)
    requires
        i <= s@.len(),
        signature@ == word_signature(),
        endsec@ == word_endsec(),
    ensures
        match signatures_spec(s@, i as int) {
            Ok((e, v)) => r matches Ok((e2, v2)) && e2 == e && text_views(v2@) == v && i <= e <= s@.len(),
            Err(x) => r == Err::<(usize, Vec<String>), TokenError>(x),
        },
    decreases s@.len() - i,
{
    let n = s.len();
    let p = scan_run(s, i, CharClass::Space);
    if !scan_literal(s, p, signature) {
        let v: Vec<String> = Vec::new();
        assert(text_views(v@) =~= Seq::<Seq<char>>::empty());
        return Ok((i, v));
    }
    let q = scan_run(s, p + 9, CharClass::Space);
    let e = scan_run(s, q, CharClass::Base64);
    if !(q < e) {
        return Err(TokenError::Mismatch);
    }
    match scan_word_semicolon(s, e, endsec) {
        Some(f) => match scan_signatures(s, f, signature, endsec) {
            Ok((g, mut rest)) => {
                let content = collect_range(s, q, e);
                let ghost x = content@;
                let ghost rv = text_views(rest@);
                let mut v = vec![content];
                v.append(&mut rest);
                assert(text_views(v@) =~= seq![x] + rv);
                Ok((g, v))
            },
            Err(y) => Err(y),
        },
        None => Err(TokenError::Mismatch),
    }
}

fn scan_header_record(s: &Vec<char>, i: usize) -> (r: Result<(usize, Record), TokenError>)
    requires
        i <= s@.len(),
    ensures
        match header_record_spec(s@, i as int) {
            Ok((e, v)) => match r {
                Ok((e2, v2)) => e2 == e && record_view(&v2) == v && i <= e <= s@.len(),
                Err(_) => false,
            },
            Err(x) => r == Err::<(usize, Record), TokenError>(x),
        },
{
    match scan_record(s, i) {
        Ok((e, rec)) => {
            let m = scan_run(s, e, CharClass::Space);
            if m < s.len() && s[m] == ';' {
                Ok((m + 1, rec))
            } else {
                Err(TokenError::Mismatch)
            }
        },
        Err(x) => Err(x),
    }
}

fn scan_instances(s: &Vec<char>, i: usize, endsec: &Vec<char>) -> (r: Result<(usize, Vec<EntityInstance>), TokenError>)
    requires
        i <= s@.len(),
        endsec@ == word_endsec(),
    ensures
        match instances_spec(s@, i as int) {
            Ok((e, v)) => match r {
                Ok((e2, v2)) => e2 == e && instances_view(v2@) == v && i <= e <= s@.len(),
                Err(_) => false,
            },
            Err(x) => r == Err::<(usize, Vec<EntityInstance>), TokenError>(x),
        },
    decreases s@.len() - i,
{
    if let Some(e) = scan_word_semicolon(s, i, endsec) {
        let v: Vec<EntityInstance> = Vec::new();
        assert(instances_view(v@) =~= Seq::<InstanceView>::empty());
        return Ok((e, v));
    }
    match scan_instance(s, i) {
        Ok((e, x)) => {
            if i < e {
                match scan_instances(s, e, endsec) {
                    Ok((e2, mut rest)) => {
                        let ghost xv = x@;
                        let ghost rv = instances_view(rest@);
                        let mut v: Vec<EntityInstance> = vec![x];
                        v.append(&mut rest);
                        assert(instances_view(v@) =~= seq![xv] + rv);
                        Ok((e2, v))
                    },
                    Err(y) => Err(y),
                }
            } else {
                Err(TokenError::Mismatch)
            }
        },
        Err(y) => Err(y),
    }
}

fn scan_sections(s: &Vec<char>, i: usize, words: &(Vec<char>, Vec<char>, Vec<char>)) -> (r: Result<
    (usize, Vec<Vec<EntityInstance>>),
    TokenError,
>)
    requires
        i <= s@.len(),
        words.0@ == word_data(),
        words.1@ == word_endsec(),
        words.2@ == word_file_end(),
    ensures
        match sections_spec(s@, i as int) {
            Ok((e, v)) => match r {
                Ok((e2, v2)) => e2 == e && sections_view(v2@) == v && i <= e <= s@.len(),
                Err(_) => false,
            },
            Err(x) => r == Err::<(usize, Vec<Vec<EntityInstance>>), TokenError>(x),
        },
    decreases s@.len() - i,
{
    let a = match scan_word_semicolon(s, i, &words.0) {
        Some(a) => a,
        None => {
            return Err(TokenError::Mismatch);
        },
    };
    let (e, d) = match scan_instances(s, a, &words.1) {
        Ok(found) => found,
        Err(x) => {
            return Err(x);
        },
    };
    let ghost dv = instances_view(d@);
    if let Some(f) = scan_word_semicolon(s, e, &words.2) {
        let v: Vec<Vec<EntityInstance>> = vec![d];
        assert(sections_view(v@) =~= seq![dv]);
        return Ok((f, v));
    }
    if i < e {
        match scan_sections(s, e, words) {
            Ok((e2, mut rest)) => {
                let ghost rv = sections_view(rest@);
                let mut v: Vec<Vec<EntityInstance>> = vec![d];
                v.append(&mut rest);
                assert(sections_view(v@) =~= seq![dv] + rv);
                Ok((e2, v))
            },
            Err(x) => Err(x),
        }
    } else {
        Err(TokenError::Mismatch)
    }
}

/// Reads a whole exchange file. Anything after the last section is returned as rest.
pub fn exchange_file(input: &str) -> (r: Result<(&str, ExchangeFile), TokenError>)
    ensures
        match exchange_file_spec(input@) {
            Ok((e, v)) => match r {
                Ok((rest, f)) => rest@ == input@.subrange(e, input@.len() as int) && records_view(f.header@)
                    == v.header && pair_views(f.anchors@) == v.anchors && ref_views(f.references@) == v.references
                    && sections_view(f.data@) == v.data && text_views(f.signatures@) == v.signatures,
                Err(_) => false,
            },
            Err(x) => r == Err::<(&str, ExchangeFile), TokenError>(x),
        },
{
    let s = chars_of(input);
    let start = vec!['I', 'S', 'O', '-', '1', '0', '3', '0', '3', '-', '2', '1'];
    let header_word = vec!['H', 'E', 'A', 'D', 'E', 'R'];
    let anchor_word = vec!['A', 'N', 'C', 'H', 'O', 'R'];
    let reference_word = vec!['R', 'E', 'F', 'E', 'R', 'E', 'N', 'C', 'E'];
    let signature_word = vec!['S', 'I', 'G', 'N', 'A', 'T', 'U', 'R', 'E'];
    let words = (
        vec!['D', 'A', 'T', 'A'],
        vec!['E', 'N', 'D', 'S', 'E', 'C'],
        vec!['E', 'N', 'D', '-', 'I', 'S', 'O', '-', '1', '0', '3', '0', '3', '-', '2', '1'],
    );
    assert(start@ =~= word_file_start());
    assert(header_word@ =~= word_header());
    assert(anchor_word@ =~= word_anchor());
    assert(reference_word@ =~= word_reference());
    assert(signature_word@ =~= word_signature());
    assert(words.0@ =~= word_data());
    assert(words.1@ =~= word_endsec());
    assert(words.2@ =~= word_file_end());
    let a = match scan_word_semicolon(&s, 0, &start) {
        Some(a) => a,
        None => {
            return Err(TokenError::Mismatch);
        },
    };
    let b = match scan_word_semicolon(&s, a, &header_word) {
        Some(b) => b,
        None => {
            return Err(TokenError::Mismatch);
        },
    };
    let (c, r1) = match scan_header_record(&s, b) {
        Ok(found) => found,
        Err(x) => {
            return Err(x);
        },
    };
    let (d, r2) = match scan_header_record(&s, c) {
        Ok(found) => found,
        Err(x) => {
            return Err(x);
        },
    };
    let (e, r3) = match scan_header_record(&s, d) {
        Ok(found) => found,
        Err(x) => {
            return Err(x);
        },
    };
    let f = match scan_word_semicolon(&s, e, &words.1) {
        Some(f) => f,
        None => {
            return Err(TokenError::Mismatch);
        },
    };
    let ghost hv = seq![record_view(&r1), record_view(&r2), record_view(&r3)];
    let header = vec![r1, r2, r3];
    assert(records_view(header@) =~= hv);
    let (c2, anchors) = match scan_word_semicolon(&s, f, &anchor_word) {
        Some(x) => match scan_anchors(&s, x, &words.1) {
            Ok(found) => found,
            Err(y) => {
                return Err(y);
            },
        },
        None => {
            let v: Vec<(String, String)> = Vec::new();
            assert(pair_views(v@) =~= Seq::<(Seq<char>, Seq<char>)>::empty());
            (f, v)
        },
    };
    let (d2, references) = match scan_word_semicolon(&s, c2, &reference_word) {
        Some(x) => match scan_references(&s, x, &words.1) {
            Ok(found) => found,
            Err(y) => {
                return Err(y);
            },
        },
        None => {
            let v: Vec<(Name, String)> = Vec::new();
            assert(ref_views(v@) =~= Seq::<(NameView, Seq<char>)>::empty());
            (c2, v)
        },
    };
    let (g, data) = match scan_sections(&s, d2, &words) {
        Ok(found) => found,
        Err(x) => {
            return Err(x);
        },
    };
    match scan_signatures(&s, g, &signature_word, &words.1) {
        Ok((h, signatures)) => Ok(
            (input.substring_char(h, s.len()), ExchangeFile { header, anchors, references, data, signatures }),
        ),
        Err(x) => Err(x),
    }
}

} // verus!
