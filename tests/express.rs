use espr::ast::{AttributeDecl, SuperTypeExpr, SyntaxTree};
use espr::ir::Schema;
use espr::namespace::{Namespace, Scope, SemanticError};
use espr::typeref::{AggregateKind, SimpleType, TypeRef};
use espr::token::TokenError;

fn attr(name: &str, optional: bool, ty: &str) -> AttributeDecl {
    AttributeDecl {
        name: name.to_string(),
        optional,
        ty: ty.to_string(),
    }
}

#[test]
fn schema_with_list_attribute() {
    let st = SyntaxTree::parse(
        "SCHEMA s; ENTITY a; x: REAL; END_ENTITY; ENTITY b; a: LIST [0:?] OF a; END_ENTITY; END_SCHEMA;",
    )
    .unwrap();
    assert_eq!(st.schemas.len(), 1);
    let s = &st.schemas[0];
    assert_eq!(s.name, "s");
    assert_eq!(s.entities.len(), 2);
    assert_eq!(s.entities[0].attributes, vec![attr("x", false, "REAL")]);
    assert_eq!(s.entities[1].name, "b");
    assert_eq!(
        s.entities[1].attributes,
        vec![attr("a", false, "LIST [0:?] OF a")]
    );
}

#[test]
fn entity_clauses_and_types() {
    let st = SyntaxTree::parse(
        r#"
        SCHEMA geo;
          TYPE label = STRING;
          END_TYPE;
          ENTITY shape SUPERTYPE OF (ONEOF(circle, square));
            name : OPTIONAL label;
          END_ENTITY;
          ENTITY circle SUBTYPE OF (shape);
            r : REAL;
          DERIVE
            area : REAL := PI * r ** 2;
          END_ENTITY;
          ENTITY square SUBTYPE OF (shape, named);
          END_ENTITY;
        END_SCHEMA;
        SCHEMA other; END_SCHEMA;
        "#,
    )
    .unwrap();
    assert_eq!(st.schemas.len(), 2);
    let g = &st.schemas[0];
    assert_eq!(g.types.len(), 1);
    assert_eq!(g.types[0].name, "label");
    assert_eq!(g.types[0].underlying, "STRING");
    assert_eq!(g.entities.len(), 3);
    assert_eq!(g.entities[0].attributes, vec![attr("name", true, "label")]);
    assert_eq!(
        g.entities[0].supertype_of,
        Some(SuperTypeExpr::OneOf(
            Box::new(SuperTypeExpr::Reference("circle".to_string())),
            Box::new(SuperTypeExpr::Reference("square".to_string()))
        ))
    );
    let derive = g.entities[1].derive.as_ref().unwrap();
    assert_eq!(derive.attributes.len(), 1);
    assert_eq!(derive.attributes[0].expr, "PI * r ** 2");
    assert_eq!(g.entities[2].subtype_of, vec!["shape".to_string(), "named".to_string()]);
    assert!(st.schemas[1].entities.is_empty());
}

#[test]
fn schema_text_to_inheritance() {
    let st = SyntaxTree::parse(
        "SCHEMA s; ENTITY p; END_ENTITY; ENTITY c SUBTYPE OF (p); END_ENTITY; END_SCHEMA;",
    )
    .unwrap();
    let ir = Schema::legalize(&Namespace::new(&st).unwrap(), &Scope::root(), &st.schemas[0]).unwrap();
    assert_eq!(ir.entities[0].subtypes, vec![1]);
    assert_eq!(ir.entities[1].supertypes, vec![0]);
}

#[test]
fn malformed_schemas() {
    assert_eq!(
        SyntaxTree::parse("SCHEMA s; ENTITY a; END_ENTITY;").unwrap_err(),
        TokenError::Mismatch
    );
    assert_eq!(
        SyntaxTree::parse("SCHEMA s; ENTITY a; x REAL; END_ENTITY; END_SCHEMA;").unwrap_err(),
        TokenError::Mismatch
    );
    assert_eq!(
        SyntaxTree::parse("SCHEMA s; END_SCHEMA; junk").unwrap_err(),
        TokenError::Mismatch
    );
    assert!(SyntaxTree::parse("   ").unwrap().schemas.is_empty());
}

#[test]
fn keywords_in_any_case() {
    let st = SyntaxTree::parse(
        "schema Shop; Entity Item supertype of (oneof(A, b)); Price : optional REAL; End_Entity; end_schema;",
    )
    .unwrap();
    let s = &st.schemas[0];
    assert_eq!(s.name, "Shop");
    assert_eq!(s.entities[0].name, "Item");
    assert_eq!(s.entities[0].attributes, vec![attr("Price", true, "REAL")]);
    assert!(matches!(s.entities[0].supertype_of, Some(SuperTypeExpr::OneOf(_, _))));
}

#[test]
fn list_of_entity_attribute_is_resolved() {
    let st = SyntaxTree::parse(
        "SCHEMA s; ENTITY a; x: REAL; END_ENTITY; ENTITY b; a: LIST [0:?] OF a; END_ENTITY; END_SCHEMA;",
    )
    .unwrap();
    let ns = Namespace::new(&st).unwrap();
    let ir = Schema::legalize(&ns, &Scope::root(), &st.schemas[0]).unwrap();
    assert_eq!(ir.entities[0].attributes[0].ty, TypeRef::Simple(SimpleType::Real));
    let b = &ir.entities[1].attributes[0];
    assert_eq!(b.name, "a");
    assert_eq!(
        b.ty,
        TypeRef::Aggregate {
            kind: AggregateKind::ListOf,
            lower: 0,
            upper: None,
            optional: false,
            unique: false,
            item: Box::new(TypeRef::Entity(0)),
        }
    );
}

#[test]
fn attribute_type_errors_in_source_order() {
    let legal = |text: &str| {
        let st = SyntaxTree::parse(text).unwrap();
        let ns = Namespace::new(&st).unwrap();
        Schema::legalize(&ns, &Scope::root(), &st.schemas[0])
    };
    assert_eq!(
        legal("SCHEMA s; ENTITY a; x: SET [3:1] OF REAL; END_ENTITY; END_SCHEMA;").unwrap_err(),
        SemanticError::InvalidBound { lower: 3, upper: 1 }
    );
    assert!(legal("SCHEMA s; ENTITY a; x: BAG [1:1] OF REAL; y: ARRAY [2:?] OF INTEGER; END_ENTITY; END_SCHEMA;").is_ok());
    assert_eq!(
        legal("SCHEMA s; ENTITY a; x: REAL; x: INTEGER; END_ENTITY; END_SCHEMA;").unwrap_err(),
        SemanticError::DuplicateAttribute { name: "x".to_string() }
    );
    assert_eq!(
        legal("SCHEMA s; ENTITY a; x: LIST OF; END_ENTITY; END_SCHEMA;").unwrap_err(),
        SemanticError::MalformedType
    );
    match legal("SCHEMA s; ENTITY a; x: zz; END_ENTITY; ENTITY b SUBTYPE OF (qq); END_ENTITY; END_SCHEMA;") {
        Err(SemanticError::UnresolvedName { name, scope }) => {
            assert_eq!(name, "zz");
            assert_eq!(scope, Scope::root().schema("s").pushed(espr::namespace::ScopeType::Entity, "a"));
        }
        other => panic!("unexpected {:?}", other),
    }
    let st = SyntaxTree::parse(
        "SCHEMA s; TYPE label = STRING; END_TYPE; ENTITY a; n: label; END_ENTITY; END_SCHEMA;",
    )
    .unwrap();
    let ns = Namespace::new(&st).unwrap();
    let ir = Schema::legalize(&ns, &Scope::root(), &st.schemas[0]).unwrap();
    assert_eq!(ir.entities[0].attributes[0].ty, TypeRef::Named(1));
}

#[test]
fn type_declarations_are_legalized() {
    let st = SyntaxTree::parse(
        r#"
        SCHEMA s;
          TYPE colour = ENUMERATION OF (red, green, blue); END_TYPE;
          TYPE label = STRING; END_TYPE;
          TYPE thing = SELECT (label, shape); END_TYPE;
          TYPE labels = LIST [1:?] OF label; END_TYPE;
          ENTITY shape; c: colour; END_ENTITY;
        END_SCHEMA;
        "#,
    )
    .unwrap();
    let ns = Namespace::new(&st).unwrap();
    let ir = Schema::legalize(&ns, &Scope::root(), &st.schemas[0]).unwrap();
    assert_eq!(ir.types.len(), 4);
    assert_eq!(ir.types[0].name, "colour");
    assert_eq!(
        ir.types[0].underlying,
        TypeRef::Enumeration(vec!["red".to_string(), "green".to_string(), "blue".to_string()])
    );
    assert_eq!(ir.types[1].underlying, TypeRef::Simple(SimpleType::String { width: None, fixed: false }));
    // namespace order: entity `shape` (0), then types colour (1), label (2), thing (3), labels (4)
    assert_eq!(
        ir.types[2].underlying,
        TypeRef::Select(vec![TypeRef::Named(2), TypeRef::Entity(0)])
    );
    assert_eq!(
        ir.types[3].underlying,
        TypeRef::Aggregate {
            kind: AggregateKind::ListOf,
            lower: 1,
            upper: None,
            optional: false,
            unique: false,
            item: Box::new(TypeRef::Named(2)),
        }
    );
    assert_eq!(ir.entities[0].attributes[0].ty, TypeRef::Named(1));
}

#[test]
fn failing_type_declaration_is_reported() {
    let st = SyntaxTree::parse(
        "SCHEMA s; TYPE a = missing; END_TYPE; TYPE b = SET [2:1] OF REAL; END_TYPE; ENTITY e; END_ENTITY; END_SCHEMA;",
    )
    .unwrap();
    let ns = Namespace::new(&st).unwrap();
    match Schema::legalize(&ns, &Scope::root(), &st.schemas[0]) {
        Err(SemanticError::UnresolvedName { name, scope }) => {
            assert_eq!(name, "missing");
            assert_eq!(scope, Scope::root().schema("s").pushed(espr::namespace::ScopeType::Type, "a"));
        }
        other => panic!("unexpected {:?}", other),
    }
    let st = SyntaxTree::parse(
        "SCHEMA s; TYPE b = SELECT (nothing); END_TYPE; END_SCHEMA;",
    )
    .unwrap();
    let ns = Namespace::new(&st).unwrap();
    assert!(matches!(
        Schema::legalize(&ns, &Scope::root(), &st.schemas[0]),
        Err(SemanticError::UnresolvedName { .. })
    ));
    let st = SyntaxTree::parse("SCHEMA s; TYPE b = ENUMERATION (x); END_TYPE; END_SCHEMA;").unwrap();
    let ns = Namespace::new(&st).unwrap();
    assert_eq!(
        Schema::legalize(&ns, &Scope::root(), &st.schemas[0]).unwrap_err(),
        SemanticError::MalformedType
    );
}

#[test]
fn supertype_references_carry_flag_and_parents() {
    let st = SyntaxTree::parse(
        "SCHEMA s; ENTITY a; END_ENTITY; ENTITY b SUBTYPE OF (a); END_ENTITY; ENTITY c SUBTYPE OF (b); END_ENTITY; END_SCHEMA;",
    )
    .unwrap();
    let ns = Namespace::new(&st).unwrap();
    let ir = Schema::legalize(&ns, &Scope::root(), &st.schemas[0]).unwrap();
    let r = &ir.entities[2].supertype_refs;
    assert_eq!(r.len(), 1);
    assert_eq!(r[0].entity, 1);
    assert!(r[0].is_supertype);
    assert_eq!(r[0].supertypes, vec![0]);
    assert!(ir.entities[0].supertype_refs.is_empty());
}

#[test]
fn widths_and_aggregate_flags() {
    let st = SyntaxTree::parse(
        "SCHEMA s; ENTITY e; a: STRING(8) FIXED; b: BINARY(3); c: ARRAY [1:3] OF OPTIONAL REAL; d: LIST [0:?] OF UNIQUE e; END_ENTITY; END_SCHEMA;",
    )
    .unwrap();
    let ns = Namespace::new(&st).unwrap();
    let ir = Schema::legalize(&ns, &Scope::root(), &st.schemas[0]).unwrap();
    let at = &ir.entities[0].attributes;
    assert_eq!(at[0].ty, TypeRef::Simple(SimpleType::String { width: Some(8), fixed: true }));
    assert_eq!(at[1].ty, TypeRef::Simple(SimpleType::Binary { width: Some(3), fixed: false }));
    assert_eq!(
        at[2].ty,
        TypeRef::Aggregate {
            kind: AggregateKind::ArrayOf,
            lower: 1,
            upper: Some(3),
            optional: true,
            unique: false,
            item: Box::new(TypeRef::Simple(SimpleType::Real)),
        }
    );
    assert!(matches!(at[3].ty, TypeRef::Aggregate { unique: true, optional: false, .. }));
}
