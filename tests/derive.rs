use espr::derive::{derive_clause, derived_attr, DeriveClause, DerivedAttribute};
use espr::token::TokenError;

fn attr(a: &str, ty: &str, expr: &str) -> DerivedAttribute {
    DerivedAttribute {
        attr: a.to_string(),
        ty: ty.to_string(),
        expr: expr.to_string(),
    }
}

#[test]
fn one_derived_attribute() {
    assert_eq!(
        derived_attr("area : REAL := width * height; END_ENTITY;"),
        Ok((" END_ENTITY;", attr("area", "REAL", "width * height")))
    );
}

#[test]
fn derived_attribute_with_aggregate_type() {
    assert_eq!(
        derived_attr("pts: LIST [0:?] OF point := f(x);"),
        Ok(("", attr("pts", "LIST [0:?] OF point", "f(x)")))
    );
}

#[test]
fn derived_attribute_errors() {
    assert_eq!(derived_attr("x := 1;"), Err(TokenError::Mismatch));
    assert_eq!(derived_attr("x : REAL := 1"), Err(TokenError::Mismatch));
    assert_eq!(derived_attr("x : := 1;"), Err(TokenError::Mismatch));
    assert_eq!(derived_attr("x : REAL := ;"), Err(TokenError::Mismatch));
    assert_eq!(derived_attr("1x : REAL := 1;"), Err(TokenError::Mismatch));
}

#[test]
fn derive_clause_reads_all_attributes() {
    let (rest, clause) =
        derive_clause("DERIVE\n  a : REAL := b * 2;\n  c : INTEGER := SIZEOF(d);\nWHERE").unwrap();
    assert_eq!(rest, "\nWHERE");
    assert_eq!(
        clause,
        DeriveClause {
            attributes: vec![
                attr("a", "REAL", "b * 2"),
                attr("c", "INTEGER", "SIZEOF(d)")
            ],
        }
    );
}

#[test]
fn derive_clause_needs_an_attribute() {
    assert_eq!(derive_clause("DERIVE WHERE"), Err(TokenError::Mismatch));
    assert_eq!(derive_clause("DERIVED a : REAL := 1;"), Err(TokenError::Mismatch));
    assert_eq!(derive_clause("INVERSE a : b FOR c;"), Err(TokenError::Mismatch));
}

#[test]
fn derive_keyword_in_lower_case() {
    let (rest, clause) = derive_clause("derive a : REAL := 1; END_ENTITY;").unwrap();
    assert_eq!(rest, " END_ENTITY;");
    assert_eq!(clause.attributes, vec![attr("a", "REAL", "1")]);
}

#[test]
fn type_stops_at_semicolon() {
    assert_eq!(derived_attr("x : T; y := 2;"), Err(TokenError::Mismatch));
    assert_eq!(derive_clause("DERIVE x : T; y := 2;"), Err(TokenError::Mismatch));
}

#[test]
fn semicolon_inside_string_stays_in_expression() {
    assert_eq!(
        derived_attr("s : STRING := 'a;b' + c; END_ENTITY;"),
        Ok((" END_ENTITY;", attr("s", "STRING", "'a;b' + c")))
    );
    assert_eq!(
        derived_attr("s : STRING := 'it''s;';"),
        Ok(("", attr("s", "STRING", "'it''s;'")))
    );
}
