use espr::ast::SuperTypeExpr;
use espr::supertype::supertype_expression;
use espr::token::TokenError;

fn r(name: &str) -> SuperTypeExpr {
    SuperTypeExpr::Reference(name.to_string())
}

fn b(e: SuperTypeExpr) -> Box<SuperTypeExpr> {
    Box::new(e)
}

#[test]
fn and_binds_tighter_than_andor() {
    let (rest, e) = supertype_expression("a ANDOR b AND c").unwrap();
    assert_eq!(rest, "");
    assert_eq!(
        e,
        SuperTypeExpr::AndOr(b(r("a")), b(SuperTypeExpr::And(b(r("b")), b(r("c")))))
    );
}

#[test]
fn operators_group_left() {
    let (_, e) = supertype_expression("a AND b AND c").unwrap();
    assert_eq!(
        e,
        SuperTypeExpr::And(b(SuperTypeExpr::And(b(r("a")), b(r("b")))), b(r("c")))
    );
}

#[test]
fn oneof_nests_right_and_parentheses_group() {
    let (rest, e) = supertype_expression("ONEOF(x, y, z) AND (p ANDOR q));").unwrap();
    assert_eq!(rest, ");");
    assert_eq!(
        e,
        SuperTypeExpr::And(
            b(SuperTypeExpr::OneOf(
                b(r("x")),
                b(SuperTypeExpr::OneOf(b(r("y")), b(r("z"))))
            )),
            b(SuperTypeExpr::AndOr(b(r("p")), b(r("q"))))
        )
    );
    let (_, single) = supertype_expression("ONEOF(only)").unwrap();
    assert_eq!(single, r("only"));
}

#[test]
fn malformed_expressions() {
    assert_eq!(supertype_expression("AND a"), Err(TokenError::Mismatch));
    assert_eq!(supertype_expression("ONEOF(a,)"), Err(TokenError::Mismatch));
    assert_eq!(supertype_expression("(a"), Err(TokenError::Mismatch));
    assert_eq!(supertype_expression(""), Err(TokenError::Mismatch));
    assert_eq!(supertype_expression("a ANDOR"), Err(TokenError::Mismatch));
}
