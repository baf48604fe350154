use espr::ast::{EntityDecl, SchemaDecl, SuperTypeExpr, SyntaxTree, TypeDecl};
use espr::constraints::Constraints;
use espr::namespace::{Namespace, Path, Scope, ScopeType, SemanticError};


fn entity(name: &str, parents: &[&str], supertype_of: Option<SuperTypeExpr>) -> EntityDecl {
    EntityDecl {
        name: name.to_string(),
        subtype_of: parents.iter().map(|p| p.to_string()).collect(),
        supertype_of,
        attributes: vec![],
        derive: None,
    }
}

fn r(name: &str) -> SuperTypeExpr {
    SuperTypeExpr::Reference(name.to_string())
}

fn one_of(a: SuperTypeExpr, b: SuperTypeExpr) -> SuperTypeExpr {
    SuperTypeExpr::OneOf(Box::new(a), Box::new(b))
}

fn schema(name: &str, entities: Vec<EntityDecl>) -> SyntaxTree {
    SyntaxTree {
        schemas: vec![SchemaDecl {
            name: name.to_string(),
            entities,
            types: vec![],
        }],
    }
}

fn paths(scope: &Scope, names: &[&str]) -> Vec<Path> {
    names.iter().map(|n| Path::entity(scope, n)).collect()
}

#[test]
fn constraint_oneof() {
    let st = SyntaxTree::parse(
        r#"
        SCHEMA test_schema;
          ENTITY base SUPERTYPE OF (ONEOF (sub1, sub2));
            x: REAL;
          END_ENTITY;

          ENTITY sub1 SUBTYPE OF (base);
            y1: REAL;
          END_ENTITY;

          ENTITY sub2 SUBTYPE OF (base);
            y2: REAL;
          END_ENTITY;
        END_SCHEMA;
        "#,
    )
    .unwrap();

    let ns = Namespace::new(&st).unwrap();
    let c = Constraints::new(&ns, &st).unwrap();

    let scope = Scope::root().schema("test_schema");
    assert_eq!(
        c,
        Constraints {
            instantiables: vec![(
                Path::entity(&scope, "base"),
                vec![paths(&scope, &["sub1"]), paths(&scope, &["sub2"])],
            )],
        }
    );
}

#[test]
fn constraint_andor() {
    // Based on `ANDOR` example in ISO-10303-11
    let st = SyntaxTree::parse(
        r#"
        SCHEMA test_schema;
          ENTITY person SUPERTYPE OF (employee ANDOR student);
          END_ENTITY;
          ENTITY employee SUBTYPE OF (person);
          END_ENTITY;
          ENTITY student SUBTYPE OF (person);
          END_ENTITY;
        END_SCHEMA;
        "#,
    )
    .unwrap();

    let ns = Namespace::new(&st).unwrap();
    let c = Constraints::new(&ns, &st).unwrap();

    let scope = Scope::root().schema("test_schema");
    assert_eq!(
        c,
        Constraints {
            instantiables: vec![(
                Path::entity(&scope, "person"),
                vec![
                    paths(&scope, &["employee"]),
                    paths(&scope, &["student"]),
                    paths(&scope, &["employee", "student"]),
                ],
            )],
        }
    );
}

#[test]
fn constraint_and() {
    // Based on `AND` example in ISO-10303-11
    let st = SyntaxTree::parse(
        r#"
        SCHEMA test_schema;
          ENTITY person SUPERTYPE OF (ONEOF(male,female) AND ONEOF(citizen,alien));
          END_ENTITY;
          ENTITY male SUBTYPE OF (person);
          END_ENTITY;
          ENTITY female SUBTYPE OF (person);
          END_ENTITY;
          ENTITY citizen SUBTYPE OF (person);
          END_ENTITY;
          ENTITY alien SUBTYPE OF (person);
          END_ENTITY;
        END_SCHEMA;
        "#,
    )
    .unwrap();

    let ns = Namespace::new(&st).unwrap();
    let c = Constraints::new(&ns, &st).unwrap();

    let scope = Scope::root().schema("test_schema");
    assert_eq!(
        c,
        Constraints {
            instantiables: vec![(
                Path::entity(&scope, "person"),
                vec![
                    paths(&scope, &["male", "citizen"]),
                    paths(&scope, &["male", "alien"]),
                    paths(&scope, &["female", "citizen"]),
                    paths(&scope, &["female", "alien"]),
                ],
            )],
        }
    );
}

#[test]
fn oneof_of_three_nests_right() {
    let st = schema(
        "s",
        vec![
            entity("a", &[], Some(one_of(r("b"), one_of(r("c"), r("d"))))),
            entity("b", &["a"], None),
            entity("c", &["a"], None),
            entity("d", &["a"], None),
        ],
    );
    let ns = Namespace::new(&st).unwrap();
    let c = Constraints::new(&ns, &st).unwrap();
    let scope = Scope::root().schema("s");
    assert_eq!(
        c.instantiables[0].1,
        vec![
            paths(&scope, &["b"]),
            paths(&scope, &["c"]),
            paths(&scope, &["d"])
        ]
    );
}

#[test]
fn is_supertype_only_for_entities_with_clause() {
    let st = schema(
        "s",
        vec![
            entity("base", &[], Some(one_of(r("x"), r("y")))),
            entity("x", &["base"], None),
            entity("y", &["base"], None),
        ],
    );
    let ns = Namespace::new(&st).unwrap();
    let c = Constraints::new(&ns, &st).unwrap();
    let scope = Scope::root().schema("s");
    assert!(c.is_supertype(&Path::entity(&scope, "base")));
    assert!(!c.is_supertype(&Path::entity(&scope, "x")));
    let other = Scope::root().schema("t");
    assert!(!c.is_supertype(&Path::entity(&other, "base")));
}

#[test]
fn unresolved_subtype_name_is_an_error() {
    let st = schema(
        "s",
        vec![entity("base", &[], Some(one_of(r("x"), r("missing")))), entity("x", &[], None)],
    );
    let ns = Namespace::new(&st).unwrap();
    match Constraints::new(&ns, &st) {
        Err(SemanticError::UnresolvedName { name, scope }) => {
            assert_eq!(name, "missing");
            assert_eq!(scope, Scope::root().schema("s"));
        }
        other => panic!("unexpected {:?}", other),
    }
}

#[test]
fn namespace_lists_entities_then_types() {
    let st = SyntaxTree {
        schemas: vec![
            SchemaDecl {
                name: "s".to_string(),
                entities: vec![entity("a", &[], None)],
                types: vec![TypeDecl {
                    name: "label".to_string(),
                    underlying: "STRING".to_string(),
                }],
            },
            SchemaDecl {
                name: "t".to_string(),
                entities: vec![entity("a", &[], None)],
                types: vec![],
            },
        ],
    };
    let ns = Namespace::new(&st).unwrap();
    let s = Scope::root().schema("s");
    let t = Scope::root().schema("t");
    assert_eq!(
        ns.paths,
        vec![
            Path::entity(&s, "a"),
            Path::new(&s, ScopeType::Type, "label"),
            Path::entity(&t, "a"),
        ]
    );
    assert_eq!(ns.resolve_index(&s, "label"), Some(1));
    assert_eq!(ns.resolve_index(&t, "a"), Some(2));
    assert_eq!(ns.resolve_index(&t, "label"), None);
}

#[test]
fn duplicate_declaration_is_refused() {
    let st = schema("s", vec![entity("a", &[], None), entity("a", &[], None)]);
    let s = Scope::root().schema("s");
    assert_eq!(
        Namespace::new(&st),
        Err(SemanticError::DuplicateDeclaration(Path::entity(&s, "a")))
    );
}

#[test]
fn resolution_walks_outward_and_keeps_its_answer_inward() {
    let st = schema("s", vec![entity("a", &[], None), entity("b", &[], None)]);
    let ns = Namespace::new(&st).unwrap();
    let s = Scope::root().schema("s");
    let inner = s.pushed(ScopeType::Entity, "b");
    let deeper = inner.pushed(ScopeType::Function, "f");
    assert_eq!(ns.resolve_index(&s, "a"), Some(0));
    assert_eq!(ns.resolve_index(&inner, "a"), Some(0));
    assert_eq!(ns.resolve_index(&deeper, "a"), Some(0));
    assert_eq!(ns.resolve_index(&deeper, "zz"), None);
    assert_eq!(ns.resolve_index(&Scope::root(), "a"), None);

    let shadowed = Namespace::from_paths(vec![
        Path::entity(&s, "a"),
        Path::new(&inner, ScopeType::Type, "a"),
    ])
    .unwrap();
    assert_eq!(shadowed.resolve_index(&s, "a"), Some(0));
    assert_eq!(shadowed.resolve_index(&deeper, "a"), Some(1));
}

#[test]
fn first_unresolved_leaf_is_reported() {
    let st = SyntaxTree::parse(
        "SCHEMA s; ENTITY a SUPERTYPE OF (x AND (m1 ANDOR m2)); END_ENTITY; ENTITY b SUPERTYPE OF (m0); END_ENTITY; ENTITY x; END_ENTITY; END_SCHEMA;",
    )
    .unwrap();
    let ns = Namespace::new(&st).unwrap();
    match Constraints::new(&ns, &st) {
        Err(SemanticError::UnresolvedName { name, .. }) => assert_eq!(name, "m1"),
        other => panic!("unexpected {:?}", other),
    }
}

#[test]
fn repeated_supertype_entry_is_refused() {
    let st = schema(
        "s",
        vec![
            entity("a", &[], Some(one_of(r("x"), r("y")))),
            entity("a", &[], Some(one_of(r("x"), r("y")))),
            entity("x", &[], None),
            entity("y", &[], None),
        ],
    );
    let scope = Scope::root().schema("s");
    let ns = Namespace::from_paths(vec![
        Path::entity(&scope, "x"),
        Path::entity(&scope, "y"),
    ])
    .unwrap();
    assert_eq!(
        Constraints::new(&ns, &st),
        Err(SemanticError::DuplicateDeclaration(Path::entity(&scope, "a")))
    );
}

#[test]
fn supertype_leaf_must_name_an_entity() {
    let st = SyntaxTree::parse(
        "SCHEMA s; TYPE t = REAL; END_TYPE; ENTITY a SUPERTYPE OF (ONEOF(b, t)); END_ENTITY; ENTITY b; END_ENTITY; END_SCHEMA;",
    )
    .unwrap();
    let ns = Namespace::new(&st).unwrap();
    match Constraints::new(&ns, &st) {
        Err(SemanticError::UnresolvedName { name, .. }) => assert_eq!(name, "t"),
        other => panic!("unexpected {:?}", other),
    }
}
