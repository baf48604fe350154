//! Tokens of the exchange-file (Part 21) syntax, read from the start of a text.
//!
//! Each reader returns the rest of the input and the value of the token, and
//! its contract ties that pair to a spec function over the characters.
use crate::chars::{
    char_in_class, chars_of, collect_range, decimal_value, digit_of, digits_value, in_class, is_digit,
    is_upper, is_lower, lemma_run_end, push_char, run_end, scan_run, CharClass,
};
use vstd::prelude::*;

verus! {

/// What goes wrong while reading a token.
#[derive(Clone, Copy, Debug, PartialEq, Eq, Structural)]
pub enum TokenError {
    /// The input does not start with the token.
    Mismatch,
    /// A quoted string has no closing apostrophe.
    UnterminatedString,
    /// An entity or value instance name does not fit in 64 bits.
    ReferenceOverflow,
    /// A number does not fit in a 64-bit signed integer.
    InvalidNumber,
}

/// A real literal, kept as the digits it was written with.
#[derive(Clone, Debug, PartialEq, Eq)]
pub struct RealLiteral {
    pub negative: bool,
    /// Digits before the point; never empty.
    pub integral: String,
    /// Digits after the point; may be empty.
    pub fractional: String,
    /// Power of ten, zero where no exponent was written.
    pub exponent: i64,
}

pub struct RealLiteralView {
    pub negative: bool,
    pub integral: Seq<char>,
    pub fractional: Seq<char>,
    pub exponent: i64,
}

impl View for RealLiteral {
    type V = RealLiteralView;

    open spec fn view(&self) -> RealLiteralView {
        RealLiteralView {
            negative: self.negative,
            integral: self.integral@,
            fractional: self.fractional@,
            exponent: self.exponent,
        }
    }
}

/// An occurrence name: a reference to an instance or to a constant.
#[derive(Clone, Debug, PartialEq, Eq)]
pub enum Name {
    Entity(u64),
    Value(u64),
    ConstantEntity(String),
    ConstantValue(String),
}

pub enum NameView {
    Entity(u64),
    Value(u64),
    ConstantEntity(Seq<char>),
    ConstantValue(Seq<char>),
}

impl View for Name {
    type V = NameView;

    open spec fn view(&self) -> NameView {
        match self {
            Name::Entity(n) => NameView::Entity(*n),
            Name::Value(n) => NameView::Value(*n),
            Name::ConstantEntity(s) => NameView::ConstantEntity(s@),
            Name::ConstantValue(s) => NameView::ConstantValue(s@),
        }
    }
}

/// The outcome of a reader on the characters `s`, from position `i`:
/// the position after the token and the token's value, or an error.
pub type Scan<V> = Result<(int, V), TokenError>;

/// The position after any spaces from `i` on.
pub open spec fn gap(s: Seq<char>, i: int) -> int {
    run_end(s, i, CharClass::Space)
}

/// A scan with `f` applied to its value.
pub open spec fn map_scan<A, B>(r: Scan<A>, f: spec_fn(A) -> B) -> Scan<B> {
    match r {
        Ok((e, v)) => Ok((e, f(v))),
        Err(x) => Err(x),
    }
}

/// An executable scan agrees with its spec.
pub open spec fn same_scan<T: View>(r: Result<(usize, T), TokenError>, sp: Scan<T::V>) -> bool {
    match sp {
        Ok((e, v)) => match r {
            Ok((e2, v2)) => e2 == e && v2@ == v,
            Err(_) => false,
        },
        Err(x) => match r {
            Ok(_) => false,
            Err(y) => y == x,
        },
    }
}

/// A reader on a whole text agrees with its spec: the rest is what follows the token.
pub open spec fn same_parse<T: View>(r: Result<(&str, T), TokenError>, s: Seq<char>, sp: Scan<T::V>) -> bool {
    match sp {
        Ok((e, v)) => match r {
            Ok((rest, v2)) => rest@ == s.subrange(e, s.len() as int) && v2@ == v,
            Err(_) => false,
        },
        Err(x) => match r {
            Ok(_) => false,
            Err(y) => y == x,
        },
    }
}

pub open spec fn scan_ends_within<T>(r: Result<(usize, T), TokenError>, i: int, n: int) -> bool {
    match r {
        Ok((e, _)) => i <= e <= n,
        Err(_) => true,
    }
}

pub open spec fn at(s: Seq<char>, i: int, c: char) -> bool {
    0 <= i < s.len() && s[i] == c
}

// ---------------------------------------------------------------- sign

pub open spec fn sign_spec(s: Seq<char>, i: int) -> Scan<char> {
    if at(s, i, '+') || at(s, i, '-') {
        Ok((i + 1, s[i]))
    } else {
        Err(TokenError::Mismatch)
    }
}

pub(crate) fn scan_sign(s: &Vec<char>, i: usize) -> (r: Result<(usize, char), TokenError>)
    requires
        i <= s@.len(),
    ensures
        same_scan(r, sign_spec(s@, i as int)),
        scan_ends_within(r, i as int, s@.len() as int),
{
    if i < s.len() && (s[i] == '+' || s[i] == '-') {
        Ok((i + 1, s[i]))
    } else {
        Err(TokenError::Mismatch)
    }
}

/// sign = `+` | `-` .
pub fn sign(input: &str) -> (r: Result<(&str, char), TokenError>)
    ensures
        same_parse(r, input@, sign_spec(input@, 0)),
{
    let s = chars_of(input);
    match scan_sign(&s, 0) {
        Ok((e, v)) => Ok((input.substring_char(e, s.len()), v)),
        Err(x) => Err(x),
    }
}

// ---------------------------------------------------------------- integer

/// Where the digits of a signed number start: after an optional sign and spaces.
pub open spec fn digits_start(s: Seq<char>, i: int) -> int {
    let p = if sign_spec(s, i) is Ok { i + 1 } else { i };
    run_end(s, p, CharClass::Space)
}

pub open spec fn signed_value(negative: bool, m: nat) -> int {
    if negative { -m } else { m as int }
}

pub open spec fn integer_spec(s: Seq<char>, i: int) -> Scan<i64> {
    let p = digits_start(s, i);
    if 0 <= p < s.len() && is_digit(s[p]) {
        let e = run_end(s, p, CharClass::Digit);
        let v = signed_value(at(s, i, '-'), digits_value(s.subrange(p, e)));
        if i64::MIN <= v <= i64::MAX {
            Ok((e, v as i64))
        } else {
            Err(TokenError::InvalidNumber)
        }
    } else {
        Err(TokenError::Mismatch)
    }
}

pub(crate) fn scan_integer(s: &Vec<char>, i: usize) -> (r: Result<(usize, i64), TokenError>)
    requires
        i <= s@.len(),
    ensures
        same_scan(r, integer_spec(s@, i as int)),
        scan_ends_within(r, i as int, s@.len() as int),
{
    let (p, negative) = match scan_sign(s, i) {
        Ok((e, c)) => (e, c == '-'),
        Err(_) => (i, false),
    };
    let p = scan_run(s, p, CharClass::Space);
    if p < s.len() && char_in_class(CharClass::Digit, s[p]) {
        let e = scan_run(s, p, CharClass::Digit);
        proof {
            lemma_run_end(s@, p as int, CharClass::Digit);
        }
        match decimal_value(s, p, e) {
            Some(m) => {
                if negative {
                    if m < 9223372036854775808u64 {
                        Ok((e, -(m as i64)))
                    } else if m == 9223372036854775808u64 {
                        Ok((e, i64::MIN))
                    } else {
                        Err(TokenError::InvalidNumber)
                    }
                } else if m <= 9223372036854775807u64 {
                    Ok((e, m as i64))
                } else {
                    Err(TokenError::InvalidNumber)
                }
            },
            None => Err(TokenError::InvalidNumber),
        }
    } else {
        Err(TokenError::Mismatch)
    }
}

/// integer = \[ sign \] digit { digit } .
pub fn integer(input: &str) -> (r: Result<(&str, i64), TokenError>)
    ensures
        same_parse(r, input@, integer_spec(input@, 0)),
{
    let s = chars_of(input);
    match scan_integer(&s, 0) {
        Ok((e, v)) => Ok((input.substring_char(e, s.len()), v)),
        Err(x) => Err(x),
    }
}


// ---------------------------------------------------------------- real

/// `E` \[ sign \] digit { digit } , spaces allowed after `E` and after the sign.
pub open spec fn exponent_spec(s: Seq<char>, i: int) -> Scan<i64> {
    if at(s, i, 'E') {
        integer_spec(s, run_end(s, i + 1, CharClass::Space))
    } else {
        Err(TokenError::Mismatch)
    }
}

pub(crate) fn scan_exponent(s: &Vec<char>, i: usize) -> (r: Result<(usize, i64), TokenError>)
    requires
        i <= s@.len(),
    ensures
        same_scan(r, exponent_spec(s@, i as int)),
        scan_ends_within(r, i as int, s@.len() as int),
{
    if i < s.len() && s[i] == 'E' {
        let p = scan_run(s, i + 1, CharClass::Space);
        scan_integer(s, p)
    } else {
        Err(TokenError::Mismatch)
    }
}

/// real = \[ sign \] digit { digit } `.` { digit } \[ `E` \[ sign \] digit { digit } \] .
///
/// An exponent that is not well formed is not part of the token.
pub open spec fn real_spec(s: Seq<char>, i: int) -> Scan<RealLiteralView> {
    let p = digits_start(s, i);
    if 0 <= p < s.len() && is_digit(s[p]) {
        let d = run_end(s, p, CharClass::Digit);
        if at(s, d, '.') {
            let f = run_end(s, d + 1, CharClass::Digit);
            let lit = |x: i64|
                RealLiteralView {
                    negative: at(s, i, '-'),
                    integral: s.subrange(p, d),
                    fractional: s.subrange(d + 1, f),
                    exponent: x,
                };
            match exponent_spec(s, f) {
                Ok((e, x)) => Ok((e, lit(x))),
                Err(TokenError::Mismatch) => Ok((f, lit(0))),
                Err(err) => Err(err),
            }
        } else {
            Err(TokenError::Mismatch)
        }
    } else {
        Err(TokenError::Mismatch)
    }
}

pub(crate) fn scan_real(s: &Vec<char>, i: usize) -> (r: Result<(usize, RealLiteral), TokenError>)
    requires
        i <= s@.len(),
    ensures
        same_scan(r, real_spec(s@, i as int)),
        scan_ends_within(r, i as int, s@.len() as int),
{
    let (p, negative) = match scan_sign(s, i) {
        Ok((e, c)) => (e, c == '-'),
        Err(_) => (i, false),
    };
    let p = scan_run(s, p, CharClass::Space);
    if p < s.len() && char_in_class(CharClass::Digit, s[p]) {
        let d = scan_run(s, p, CharClass::Digit);
        if d < s.len() && s[d] == '.' {
            let f = scan_run(s, d + 1, CharClass::Digit);
            let (e, exponent) = match scan_exponent(s, f) {
                Ok((e, x)) => (e, x),
                Err(TokenError::Mismatch) => (f, 0i64),
                Err(err) => {
                    return Err(err);
                },
            };
            let lit = RealLiteral {
                negative,
                integral: collect_range(s, p, d),
                fractional: collect_range(s, d + 1, f),
                exponent,
            };
            Ok((e, lit))
        } else {
            Err(TokenError::Mismatch)
        }
    } else {
        Err(TokenError::Mismatch)
    }
}

/// Reads a real literal; a number without a point is no real.
pub fn real_literal(input: &str) -> (r: Result<(&str, RealLiteral), TokenError>)
    ensures
        same_parse(r, input@, real_spec(input@, 0)),
{
    let s = chars_of(input);
    match scan_real(&s, 0) {
        Ok((e, v)) => Ok((input.substring_char(e, s.len()), v)),
        Err(x) => Err(x),
    }
}

// ---------------------------------------------------------------- string

/// Puts `pre` before the text of a successful scan.
pub open spec fn prepend(r: Scan<Seq<char>>, pre: Seq<char>) -> Scan<Seq<char>> {
    match r {
        Ok((e, t)) => Ok((e, pre + t)),
        Err(x) => Err(x),
    }
}

/// The body of a quoted string from position `i` up to and including the closing
/// apostrophe; a doubled apostrophe stands for one apostrophe.
pub open spec fn string_body(s: Seq<char>, i: int) -> Scan<Seq<char>>
    decreases s.len() - i,
{
    if i < 0 || i >= s.len() {
        Err(TokenError::UnterminatedString)
    } else if s[i] == '\'' {
        if at(s, i + 1, '\'') {
            prepend(string_body(s, i + 2), seq!['\''])
        } else {
            Ok((i + 1, Seq::empty()))
        }
    } else {
        prepend(string_body(s, i + 1), seq![s[i]])
    }
}

pub open spec fn string_spec(s: Seq<char>, i: int) -> Scan<Seq<char>> {
    if at(s, i, '\'') {
        string_body(s, i + 1)
    } else {
        Err(TokenError::Mismatch)
    }
}

pub(crate) fn scan_string(s: &Vec<char>, i: usize) -> (r: Result<(usize, String), TokenError>)
    requires
        i <= s@.len(),
    ensures
        same_scan(r, string_spec(s@, i as int)),
        scan_ends_within(r, i as int, s@.len() as int),
{
    if !(i < s.len() && s[i] == '\'') {
        return Err(TokenError::Mismatch);
    }
    let mut out = String::new();
    let mut j: usize = i + 1;
    assert(out@ + Seq::<char>::empty() =~= out@);
    while j < s.len()
        invariant
            i < j <= s@.len(),
            string_spec(s@, i as int) == string_body(s@, i + 1),
            string_body(s@, i + 1) == prepend(string_body(s@, j as int), out@),
        decreases s@.len() - j,
    {
        let c = s[j];
        if c == '\'' {
            if j + 1 < s.len() && s[j + 1] == '\'' {
                proof {
                    let ghost rest = string_body(s@, j + 2);
                    assert(prepend(prepend(rest, seq!['\'']), out@) == prepend(rest, out@.push('\''))) by {
                        assert(out@ + seq!['\''] =~= out@.push('\''));
                        match rest {
                            Ok((e, t)) => {
                                assert(out@ + (seq!['\''] + t) =~= out@.push('\'') + t);
                            },
                            Err(_) => {},
                        }
                    }
                }
                push_char(&mut out, '\'');
                j = j + 2;
            } else {
                assert(!at(s@, j + 1, '\''));
                assert(string_body(s@, j as int) == Scan::Ok((j + 1, Seq::<char>::empty())));
                assert(out@ + Seq::<char>::empty() =~= out@);
                return Ok((j + 1, out));
            }
        } else {
            proof {
                let ghost rest = string_body(s@, j + 1);
                assert(prepend(prepend(rest, seq![c]), out@) == prepend(rest, out@.push(c))) by {
                    match rest {
                        Ok((e, t)) => {
                            assert(out@ + (seq![c] + t) =~= out@.push(c) + t);
                        },
                        Err(_) => {},
                    }
                }
            }
            push_char(&mut out, c);
            j = j + 1;
        }
    }
    Err(TokenError::UnterminatedString)
}

/// string = `'` { character | `''` } `'` ; the value has each `''` read as one `'`.
pub fn string(input: &str) -> (r: Result<(&str, String), TokenError>)
    ensures
        same_parse(r, input@, string_spec(input@, 0)),
{
    let s = chars_of(input);
    match scan_string(&s, 0) {
        Ok((e, v)) => Ok((input.substring_char(e, s.len()), v)),
        Err(x) => Err(x),
    }
}


// ---------------------------------------------------------------- keywords

/// standard_keyword = upper { upper | digit } .
pub open spec fn standard_keyword_spec(s: Seq<char>, i: int) -> Scan<Seq<char>> {
    if 0 <= i < s.len() && is_upper(s[i]) {
        let e = run_end(s, i + 1, CharClass::UpperOrDigit);
        Ok((e, s.subrange(i, e)))
    } else {
        Err(TokenError::Mismatch)
    }
}

pub(crate) fn scan_standard_keyword(s: &Vec<char>, i: usize) -> (r: Result<(usize, String), TokenError>)
    requires
        i <= s@.len(),
    ensures
        same_scan(r, standard_keyword_spec(s@, i as int)),
        scan_ends_within(r, i as int, s@.len() as int),
{
    if i < s.len() && (('A' <= s[i] && s[i] <= 'Z') || s[i] == '_') {
        let e = scan_run(s, i + 1, CharClass::UpperOrDigit);
        Ok((e, collect_range(s, i, e)))
    } else {
        Err(TokenError::Mismatch)
    }
}

/// standard_keyword = upper { upper | digit } .
pub fn standard_keyword(input: &str) -> (r: Result<(&str, String), TokenError>)
    ensures
        same_parse(r, input@, standard_keyword_spec(input@, 0)),
{
    let s = chars_of(input);
    match scan_standard_keyword(&s, 0) {
        Ok((e, v)) => Ok((input.substring_char(e, s.len()), v)),
        Err(x) => Err(x),
    }
}

/// A keyword after a one-character prefix.
pub open spec fn prefixed_keyword_spec(s: Seq<char>, i: int, prefix: char) -> Scan<Seq<char>> {
    if at(s, i, prefix) {
        standard_keyword_spec(s, i + 1)
    } else {
        Err(TokenError::Mismatch)
    }
}

pub(crate) fn scan_prefixed_keyword(s: &Vec<char>, i: usize, prefix: char) -> (r: Result<
    (usize, String),
    TokenError,
>)
    requires
        i <= s@.len(),
    ensures
        same_scan(r, prefixed_keyword_spec(s@, i as int, prefix)),
        scan_ends_within(r, i as int, s@.len() as int),
{
    if i < s.len() && s[i] == prefix {
        scan_standard_keyword(s, i + 1)
    } else {
        Err(TokenError::Mismatch)
    }
}

/// user_defined_keyword = `!` upper { upper | digit } .
pub fn user_defined_keyword(input: &str) -> (r: Result<(&str, String), TokenError>)
    ensures
        same_parse(r, input@, prefixed_keyword_spec(input@, 0, '!')),
{
    let s = chars_of(input);
    match scan_prefixed_keyword(&s, 0, '!') {
        Ok((e, v)) => Ok((input.substring_char(e, s.len()), v)),
        Err(x) => Err(x),
    }
}

/// constant_entity_name = `#` upper { upper | digit } .
pub fn constant_entity_name(input: &str) -> (r: Result<(&str, String), TokenError>)
    ensures
        same_parse(r, input@, prefixed_keyword_spec(input@, 0, '#')),
{
    let s = chars_of(input);
    match scan_prefixed_keyword(&s, 0, '#') {
        Ok((e, v)) => Ok((input.substring_char(e, s.len()), v)),
        Err(x) => Err(x),
    }
}

/// constant_value_name = `@` upper { upper | digit } .
pub fn constant_value_name(input: &str) -> (r: Result<(&str, String), TokenError>)
    ensures
        same_parse(r, input@, prefixed_keyword_spec(input@, 0, '@')),
{
    let s = chars_of(input);
    match scan_prefixed_keyword(&s, 0, '@') {
        Ok((e, v)) => Ok((input.substring_char(e, s.len()), v)),
        Err(x) => Err(x),
    }
}

/// keyword = user_defined_keyword | standard_keyword .
pub open spec fn keyword_spec(s: Seq<char>, i: int) -> Scan<Seq<char>> {
    match prefixed_keyword_spec(s, i, '!') {
        Ok(r) => Ok(r),
        Err(_) => standard_keyword_spec(s, i),
    }
}

pub(crate) fn scan_keyword(s: &Vec<char>, i: usize) -> (r: Result<(usize, String), TokenError>)
    requires
        i <= s@.len(),
    ensures
        same_scan(r, keyword_spec(s@, i as int)),
        scan_ends_within(r, i as int, s@.len() as int),
{
    match scan_prefixed_keyword(s, i, '!') {
        Ok(found) => Ok(found),
        Err(_) => scan_standard_keyword(s, i),
    }
}

/// keyword = user_defined_keyword | standard_keyword .
pub fn keyword(input: &str) -> (r: Result<(&str, String), TokenError>)
    ensures
        same_parse(r, input@, keyword_spec(input@, 0)),
{
    let s = chars_of(input);
    let scanned = match scan_prefixed_keyword(&s, 0, '!') {
        Ok(found) => Ok(found),
        Err(_) => scan_standard_keyword(&s, 0),
    };
    match scanned {
        Ok((e, v)) => Ok((input.substring_char(e, s.len()), v)),
        Err(x) => Err(x),
    }
}

/// enumeration = `.` upper { upper | digit } `.` .
pub open spec fn enumeration_spec(s: Seq<char>, i: int) -> Scan<Seq<char>> {
    match prefixed_keyword_spec(s, i, '.') {
        Ok((e, v)) => if at(s, e, '.') {
            Ok((e + 1, v))
        } else {
            Err(TokenError::Mismatch)
        },
        Err(x) => Err(x),
    }
}

pub(crate) fn scan_enumeration(s: &Vec<char>, i: usize) -> (r: Result<(usize, String), TokenError>)
    requires
        i <= s@.len(),
    ensures
        same_scan(r, enumeration_spec(s@, i as int)),
        scan_ends_within(r, i as int, s@.len() as int),
{
    match scan_prefixed_keyword(s, i, '.') {
        Ok((e, v)) => {
            if e < s.len() && s[e] == '.' {
                Ok((e + 1, v))
            } else {
                Err(TokenError::Mismatch)
            }
        },
        Err(x) => Err(x),
    }
}

/// enumeration = `.` upper { upper | digit } `.` .
pub fn enumeration(input: &str) -> (r: Result<(&str, String), TokenError>)
    ensures
        same_parse(r, input@, enumeration_spec(input@, 0)),
{
    let s = chars_of(input);
    match scan_prefixed_keyword(&s, 0, '.') {
        Ok((e, v)) => {
            if e < s.len() && s[e] == '.' {
                Ok((input.substring_char(e + 1, s.len()), v))
            } else {
                Err(TokenError::Mismatch)
            }
        },
        Err(x) => Err(x),
    }
}

/// tag_name = ( upper | lower ) { upper | lower | digit } .
pub open spec fn tag_name_spec(s: Seq<char>, i: int) -> Scan<Seq<char>> {
    if 0 <= i < s.len() && (is_upper(s[i]) || is_lower(s[i])) {
        let e = run_end(s, i + 1, CharClass::LetterOrDigit);
        Ok((e, s.subrange(i, e)))
    } else {
        Err(TokenError::Mismatch)
    }
}

/// tag_name = ( upper | lower ) { upper | lower | digit } .
pub fn tag_name(input: &str) -> (r: Result<(&str, String), TokenError>)
    ensures
        same_parse(r, input@, tag_name_spec(input@, 0)),
{
    let s = chars_of(input);
    if s.len() > 0 && (('A' <= s[0] && s[0] <= 'Z') || s[0] == '_' || ('a' <= s[0] && s[0] <= 'z')) {
        let e = scan_run(&s, 1, CharClass::LetterOrDigit);
        Ok((input.substring_char(e, s.len()), collect_range(&s, 0, e)))
    } else {
        Err(TokenError::Mismatch)
    }
}

/// signature_content = BASE64 , at least one character.
pub open spec fn signature_content_spec(s: Seq<char>, i: int) -> Scan<Seq<char>> {
    if 0 <= i < s.len() && in_class(CharClass::Base64, s[i]) {
        let e = run_end(s, i, CharClass::Base64);
        Ok((e, s.subrange(i, e)))
    } else {
        Err(TokenError::Mismatch)
    }
}

/// signature_content = BASE64 ; kept as text, not decoded.
pub fn signature_content(input: &str) -> (r: Result<(&str, String), TokenError>)
    ensures
        same_parse(r, input@, signature_content_spec(input@, 0)),
{
    let s = chars_of(input);
    if s.len() > 0 && char_in_class(CharClass::Base64, s[0]) {
        let e = scan_run(&s, 0, CharClass::Base64);
        Ok((input.substring_char(e, s.len()), collect_range(&s, 0, e)))
    } else {
        Err(TokenError::Mismatch)
    }
}

/// `<` text `>` , the text holding no `>`; the text is not checked further.
pub open spec fn angle_spec(s: Seq<char>, i: int) -> Scan<Seq<char>> {
    if at(s, i, '<') {
        let e = run_end(s, i + 1, CharClass::NotClosingAngle);
        if at(s, e, '>') {
            Ok((e + 1, s.subrange(i + 1, e)))
        } else {
            Err(TokenError::Mismatch)
        }
    } else {
        Err(TokenError::Mismatch)
    }
}

pub(crate) fn scan_angle(s: &Vec<char>, i: usize) -> (r: Result<(usize, String), TokenError>)
    requires
        i <= s@.len(),
    ensures
        same_scan(r, angle_spec(s@, i as int)),
        scan_ends_within(r, i as int, s@.len() as int),
{
    if i < s.len() && s[i] == '<' {
        let e = scan_run(s, i + 1, CharClass::NotClosingAngle);
        if e < s.len() && s[e] == '>' {
            Ok((e + 1, collect_range(s, i + 1, e)))
        } else {
            Err(TokenError::Mismatch)
        }
    } else {
        Err(TokenError::Mismatch)
    }
}

/// resource = `<` UNIVERSAL_RESOURCE_IDENTIFIER `>` , read as raw text.
pub fn resource(input: &str) -> (r: Result<(&str, String), TokenError>)
    ensures
        same_parse(r, input@, angle_spec(input@, 0)),
{
    let s = chars_of(input);
    match scan_angle(&s, 0) {
        Ok((e, v)) => Ok((input.substring_char(e, s.len()), v)),
        Err(x) => Err(x),
    }
}

/// anchor_name = `<` URI_FRAGMENT_IDENTIFIER `>` , read as raw text.
pub fn anchor_name(input: &str) -> (r: Result<(&str, String), TokenError>)
    ensures
        same_parse(r, input@, angle_spec(input@, 0)),
{
    let s = chars_of(input);
    match scan_angle(&s, 0) {
        Ok((e, v)) => Ok((input.substring_char(e, s.len()), v)),
        Err(x) => Err(x),
    }
}


// ---------------------------------------------------------------- instance names

/// `sigil` digit { digit } , read as a 64-bit number; leading zeros do not count.
pub open spec fn instance_name_spec(s: Seq<char>, i: int, sigil: char) -> Scan<u64> {
    if at(s, i, sigil) && 0 <= i + 1 < s.len() && is_digit(s[i + 1]) {
        let e = run_end(s, i + 1, CharClass::Digit);
        let v = digits_value(s.subrange(i + 1, e));
        if v <= u64::MAX {
            Ok((e, v as u64))
        } else {
            Err(TokenError::ReferenceOverflow)
        }
    } else {
        Err(TokenError::Mismatch)
    }
}

pub(crate) fn scan_instance_name(s: &Vec<char>, i: usize, sigil: char) -> (r: Result<(usize, u64), TokenError>)
    requires
        i <= s@.len(),
    ensures
        same_scan(r, instance_name_spec(s@, i as int, sigil)),
        scan_ends_within(r, i as int, s@.len() as int),
{
    if i < s.len() && s[i] == sigil && i + 1 < s.len() && char_in_class(CharClass::Digit, s[i + 1]) {
        let e = scan_run(s, i + 1, CharClass::Digit);
        proof {
            lemma_run_end(s@, i + 1, CharClass::Digit);
        }
        match decimal_value(s, i + 1, e) {
            Some(v) => Ok((e, v)),
            None => Err(TokenError::ReferenceOverflow),
        }
    } else {
        Err(TokenError::Mismatch)
    }
}

/// entity_instance_name = `#` digit { digit } .
pub fn entity_instance_name(input: &str) -> (r: Result<(&str, u64), TokenError>)
    ensures
        same_parse(r, input@, instance_name_spec(input@, 0, '#')),
{
    let s = chars_of(input);
    match scan_instance_name(&s, 0, '#') {
        Ok((e, v)) => Ok((input.substring_char(e, s.len()), v)),
        Err(x) => Err(x),
    }
}

/// value_instance_name = `@` digit { digit } .
pub fn value_instance_name(input: &str) -> (r: Result<(&str, u64), TokenError>)
    ensures
        same_parse(r, input@, instance_name_spec(input@, 0, '@')),
{
    let s = chars_of(input);
    match scan_instance_name(&s, 0, '@') {
        Ok((e, v)) => Ok((input.substring_char(e, s.len()), v)),
        Err(x) => Err(x),
    }
}

/// Tries a second reader only where the first does not match at all.
pub open spec fn or_else<V>(first: Scan<V>, second: Scan<V>) -> Scan<V> {
    match first {
        Err(TokenError::Mismatch) => second,
        _ => first,
    }
}

pub open spec fn as_name(r: Scan<u64>, entity: bool) -> Scan<NameView> {
    match r {
        Ok((e, v)) => Ok((e, if entity { NameView::Entity(v) } else { NameView::Value(v) })),
        Err(x) => Err(x),
    }
}

pub open spec fn as_constant(r: Scan<Seq<char>>, entity: bool) -> Scan<NameView> {
    match r {
        Ok((e, v)) => Ok((e, if entity { NameView::ConstantEntity(v) } else { NameView::ConstantValue(v) })),
        Err(x) => Err(x),
    }
}

/// lhs_occurrence_name = entity_instance_name | value_instance_name .
pub open spec fn lhs_spec(s: Seq<char>, i: int) -> Scan<NameView> {
    or_else(
        as_name(instance_name_spec(s, i, '#'), true),
        as_name(instance_name_spec(s, i, '@'), false),
    )
}

/// rhs_occurrence_name = entity_instance_name | value_instance_name
///                     | constant_entity_name | constant_value_name .
pub open spec fn rhs_spec(s: Seq<char>, i: int) -> Scan<NameView> {
    or_else(
        lhs_spec(s, i),
        or_else(
            as_constant(prefixed_keyword_spec(s, i, '#'), true),
            as_constant(prefixed_keyword_spec(s, i, '@'), false),
        ),
    )
}

pub(crate) fn scan_lhs(s: &Vec<char>, i: usize) -> (r: Result<(usize, Name), TokenError>)
    requires
        i <= s@.len(),
    ensures
        same_scan(r, lhs_spec(s@, i as int)),
        scan_ends_within(r, i as int, s@.len() as int),
{
    match scan_instance_name(s, i, '#') {
        Ok((e, v)) => Ok((e, Name::Entity(v))),
        Err(TokenError::Mismatch) => match scan_instance_name(s, i, '@') {
            Ok((e, v)) => Ok((e, Name::Value(v))),
            Err(x) => Err(x),
        },
        Err(x) => Err(x),
    }
}

pub(crate) fn scan_rhs(s: &Vec<char>, i: usize) -> (r: Result<(usize, Name), TokenError>)
    requires
        i <= s@.len(),
    ensures
        same_scan(r, rhs_spec(s@, i as int)),
        scan_ends_within(r, i as int, s@.len() as int),
{
    match scan_lhs(s, i) {
        Err(TokenError::Mismatch) => match scan_prefixed_keyword(s, i, '#') {
            Ok((e, v)) => Ok((e, Name::ConstantEntity(v))),
            Err(TokenError::Mismatch) => match scan_prefixed_keyword(s, i, '@') {
                Ok((e, v)) => Ok((e, Name::ConstantValue(v))),
                Err(x) => Err(x),
            },
            Err(x) => Err(x),
        },
        other => other,
    }
}

/// lhs_occurrence_name = entity_instance_name | value_instance_name .
pub fn lhs_occurrence_name(input: &str) -> (r: Result<(&str, Name), TokenError>)
    ensures
        same_parse(r, input@, lhs_spec(input@, 0)),
{
    let s = chars_of(input);
    match scan_lhs(&s, 0) {
        Ok((e, v)) => Ok((input.substring_char(e, s.len()), v)),
        Err(x) => Err(x),
    }
}

/// rhs_occurrence_name = entity_instance_name | value_instance_name
///                     | constant_entity_name | constant_value_name .
pub fn rhs_occurrence_name(input: &str) -> (r: Result<(&str, Name), TokenError>)
    ensures
        same_parse(r, input@, rhs_spec(input@, 0)),
{
    let s = chars_of(input);
    match scan_rhs(&s, 0) {
        Ok((e, v)) => Ok((input.substring_char(e, s.len()), v)),
        Err(x) => Err(x),
    }
}


// ---------------------------------------------------------------- laws

pub open spec fn digit_char(d: nat) -> char {
    if d == 0 { '0' }
    else if d == 1 { '1' }
    else if d == 2 { '2' }
    else if d == 3 { '3' }
    else if d == 4 { '4' }
    else if d == 5 { '5' }
    else if d == 6 { '6' }
    else if d == 7 { '7' }
    else if d == 8 { '8' }
    else { '9' }
}

/// The canonical decimal form of `n`: no leading zero, `0` for zero.
pub open spec fn decimal(n: nat) -> Seq<char>
    decreases n,
{
    if n < 10 {
        seq![digit_char(n)]
    } else {
        decimal(n / 10).push(digit_char(n % 10))
    }
}

pub open spec fn zeros(k: nat) -> Seq<char> {
    Seq::new(k, |m: int| '0')
}

pub open spec fn all_digits(d: Seq<char>) -> bool {
    forall|m: int| 0 <= m < d.len() ==> is_digit(#[trigger] d[m])
}

proof fn lemma_decimal(n: nat)
    ensures
        decimal(n).len() > 0,
        all_digits(decimal(n)),
        digits_value(decimal(n)) == n,
    decreases n,
{
    assert(digit_of(digit_char(n % 10)) == n % 10) by {
        assert('0' as int == 48);
        assert('9' as int == 57);
    }
    if n < 10 {
        assert(decimal(n).drop_last() =~= Seq::<char>::empty());
        assert(n % 10 == n);
        assert(digits_value(Seq::<char>::empty()) == 0);
        assert(digits_value(decimal(n)) == digits_value(decimal(n).drop_last()) * 10 + digit_of(decimal(n).last()));
    } else {
        lemma_decimal(n / 10);
        let d = decimal(n / 10);
        let c = digit_char(n % 10);
        assert(d.push(c).drop_last() =~= d);
        assert(forall|m: int| 0 <= m < d.push(c).len() ==> #[trigger] d.push(c)[m] == if m < d.len() { d[m] } else { c });
        assert(decimal(n) == d.push(c));
        assert(digits_value(d.push(c)) == digits_value(d) * 10 + digit_of(c));
        assert((n / 10) * 10 + n % 10 == n);
    }
}

proof fn lemma_leading_zeros(k: nat, d: Seq<char>)
    ensures
        digits_value(zeros(k) + d) == digits_value(d),
    decreases d.len(), k,
{
    if d.len() == 0 {
        assert(zeros(k) + d =~= zeros(k));
        if k > 0 {
            assert(zeros(k).drop_last() =~= zeros((k - 1) as nat));
            lemma_leading_zeros((k - 1) as nat, d);
            assert(zeros((k - 1) as nat) + d =~= zeros((k - 1) as nat));
        }
    } else {
        assert((zeros(k) + d).drop_last() =~= zeros(k) + d.drop_last());
        lemma_leading_zeros(k, d.drop_last());
    }
}

proof fn lemma_run_to_end(s: Seq<char>, i: int, k: CharClass)
    requires
        0 <= i <= s.len(),
        forall|m: int| i <= m < s.len() ==> in_class(k, #[trigger] s[m]),
    ensures
        run_end(s, i, k) == s.len(),
    decreases s.len() - i,
{
    if i < s.len() {
        lemma_run_to_end(s, i + 1, k);
    }
}

/// An instance name whose digits are all of the text reads as their decimal value.
proof fn lemma_instance_name_digits(sigil: char, d: Seq<char>)
    requires
        d.len() > 0,
        all_digits(d),
    ensures
        instance_name_spec(seq![sigil] + d, 0, sigil) == (if digits_value(d) <= u64::MAX {
            Scan::Ok((d.len() + 1int, digits_value(d) as u64))
        } else {
            Scan::Err(TokenError::ReferenceOverflow)
        }),
{
    let s = seq![sigil] + d;
    assert(forall|m: int| 1 <= m < s.len() ==> #[trigger] s[m] == d[m - 1]);
    lemma_run_to_end(s, 1, CharClass::Digit);
    assert(s.subrange(1, s.len() as int) =~= d);
}

/// Every 64-bit number reads back from its decimal form after an instance sigil,
/// with or without leading zeros, and the whole text is read.
pub proof fn instance_name_round_trip(sigil: char, n: u64, k: nat)
    ensures
        instance_name_spec(seq![sigil] + zeros(k) + decimal(n as nat), 0, sigil) == Scan::Ok(
            (k + decimal(n as nat).len() + 1int, n),
        ),
{
    lemma_decimal(n as nat);
    let d = zeros(k) + decimal(n as nat);
    lemma_leading_zeros(k, decimal(n as nat));
    assert(all_digits(d)) by {
        assert(forall|m: int| 0 <= m < d.len() ==> #[trigger] d[m] == if m < k { '0' } else { decimal(n as nat)[m - k] });
    }
    assert(seq![sigil] + zeros(k) + decimal(n as nat) =~= seq![sigil] + d);
    lemma_instance_name_digits(sigil, d);
}

/// Digits whose value exceeds the 64-bit range after an instance sigil are refused
/// with an overflow.
pub proof fn instance_name_overflow(sigil: char, d: Seq<char>)
    requires
        d.len() > 0,
        all_digits(d),
        digits_value(d) > u64::MAX,
    ensures
        instance_name_spec(seq![sigil] + d, 0, sigil) == Scan::<u64>::Err(TokenError::ReferenceOverflow),
{
    lemma_instance_name_digits(sigil, d);
}

/// Writes each apostrophe of `t` twice.
pub open spec fn escape(t: Seq<char>) -> Seq<char>
    decreases t.len(),
{
    if t.len() == 0 {
        Seq::empty()
    } else {
        (if t[0] == '\'' { seq!['\'', '\''] } else { seq![t[0]] }) + escape(t.drop_first())
    }
}

proof fn lemma_string_body_escaped(p: Seq<char>, t: Seq<char>)
    ensures
        string_body(p + escape(t) + seq!['\''], p.len() as int) == Scan::Ok(
            (p.len() + escape(t).len() + 1int, t),
        ),
    decreases t.len(),
{
    let s = p + escape(t) + seq!['\''];
    let i = p.len() as int;
    if t.len() == 0 {
        assert(s =~= p + seq!['\'']);
        assert(s[i] == '\'');
        assert(t =~= Seq::<char>::empty());
        assert(string_body(s, i) == Scan::Ok((i + 1, Seq::<char>::empty())));
    } else {
        let c = t[0];
        let head = if c == '\'' { seq!['\'', '\''] } else { seq![c] };
        let longer = p + head;
        let rest = t.drop_first();
        assert(s =~= longer + escape(rest) + seq!['\'']);
        lemma_string_body_escaped(longer, rest);
        assert(escape(t) == head + escape(rest));
        assert(s[i] == head[0]);
        assert(seq![c] + rest =~= t);
        if c == '\'' {
            assert(s[i + 1] == '\'');
            assert(string_body(s, i) == prepend(string_body(s, i + 2), seq![c]));
        } else {
            assert(string_body(s, i) == prepend(string_body(s, i + 1), seq![c]));
        }
    }
}

/// Doubling every apostrophe of any text and quoting it gives a string token
/// that reads back as that text.
pub proof fn string_escape_round_trip(t: Seq<char>)
    ensures
        string_spec(seq!['\''] + escape(t) + seq!['\''], 0) == Scan::Ok((escape(t).len() + 2int, t)),
{
    lemma_string_body_escaped(seq!['\''], t);
}

/// A text without a point holds no real literal.
pub proof fn real_needs_point(s: Seq<char>)
    requires
        forall|m: int| 0 <= m < s.len() ==> #[trigger] s[m] != '.',
    ensures
        real_spec(s, 0) is Err,
{
}

/// An integer literal never takes in a point, so a text with a point is never read
/// whole as an integer.
pub proof fn integer_stops_before_point(s: Seq<char>)
    ensures
        match integer_spec(s, 0) {
            Ok((e, _)) => (forall|m: int| 0 <= m < e ==> #[trigger] s[m] != '.') && ((exists|m: int|
                0 <= m < s.len() && s[m] == '.') ==> e < s.len()),
            Err(_) => true,
        },
{
    let after_sign = if sign_spec(s, 0) is Ok { 1int } else { 0int };
    lemma_run_end(s, after_sign, CharClass::Space);
    let p = digits_start(s, 0);
    if 0 <= p < s.len() && is_digit(s[p]) {
        lemma_run_end(s, p, CharClass::Digit);
    }
}

proof fn lemma_integer_no_point(s: Seq<char>, i: int)
    requires
        0 <= i <= s.len(),
    ensures
        integer_spec(s, i) matches Ok((e, _)) ==> i <= e <= s.len() && forall|m: int| i <= m < e ==> #[trigger] s[m] != '.',
{
    let after_sign = if sign_spec(s, i) is Ok { i + 1 } else { i };
    lemma_run_end(s, after_sign, CharClass::Space);
    let p = digits_start(s, i);
    if 0 <= p < s.len() && is_digit(s[p]) {
        lemma_run_end(s, p, CharClass::Digit);
    }
}

/// A real literal that is read holds exactly one point; so no text without a point,
/// and no part of one before its first point, is read as a real.
pub proof fn real_has_one_point(s: Seq<char>)
    ensures
        real_spec(s, 0) matches Ok((e, _)) ==> exists|d: int|
            0 <= d < e && s[d] == '.' && forall|m: int| 0 <= m < e && m != d ==> #[trigger] s[m] != '.',
{
    if let Ok((e, _)) = real_spec(s, 0) {
        let after_sign = if sign_spec(s, 0) is Ok { 1int } else { 0int };
        lemma_run_end(s, after_sign, CharClass::Space);
        let p = digits_start(s, 0);
        lemma_run_end(s, p, CharClass::Digit);
        let d = run_end(s, p, CharClass::Digit);
        lemma_run_end(s, d + 1, CharClass::Digit);
        let f = run_end(s, d + 1, CharClass::Digit);
        if at(s, f, 'E') {
            lemma_run_end(s, f + 1, CharClass::Space);
            lemma_integer_no_point(s, run_end(s, f + 1, CharClass::Space));
        }
        assert forall|m: int| 0 <= m < e && m != d implies #[trigger] s[m] != '.' by {
            if m < after_sign {
                assert(s[m] == '+' || s[m] == '-');
            }
        }
    }
}

} // verus!
