use espr::ast::{EntityDecl, SchemaDecl, SyntaxTree};
use espr::ir::Schema;
use espr::namespace::{Namespace, Scope, SemanticError};

fn entity(name: &str, parents: &[&str]) -> EntityDecl {
    EntityDecl {
        name: name.to_string(),
        subtype_of: parents.iter().map(|p| p.to_string()).collect(),
        supertype_of: None,
        attributes: vec![],
        derive: None,
    }
}

fn empty_ns() -> Namespace {
    Namespace::from_paths(vec![]).unwrap()
}

fn schema(entities: Vec<EntityDecl>) -> SchemaDecl {
    SchemaDecl {
        name: "s".to_string(),
        entities,
        types: vec![],
    }
}

#[test]
fn supertypes_and_subtypes_mirror_each_other() {
    let s = Schema::legalize(&empty_ns(), &Scope::root(), &schema(vec![
        entity("person", &[]),
        entity("employee", &["person"]),
        entity("student", &["person"]),
        entity("tutor", &["employee", "student", "employee"]),
    ]))
    .unwrap();
    assert_eq!(s.name, "s");
    assert_eq!(s.entities[0].supertypes, Vec::<usize>::new());
    assert_eq!(s.entities[0].subtypes, vec![1, 2]);
    assert_eq!(s.entities[1].supertypes, vec![0]);
    assert_eq!(s.entities[1].subtypes, vec![3]);
    assert_eq!(s.entities[3].supertypes, vec![1, 2]);
    assert_eq!(s.entities[3].subtypes, Vec::<usize>::new());
    for (e, ent) in s.entities.iter().enumerate() {
        for &p in &ent.supertypes {
            assert!(s.entities[p].subtypes.contains(&e));
        }
        for &c in &ent.subtypes {
            assert!(s.entities[c].supertypes.contains(&e));
        }
    }
}

#[test]
fn self_referencing_and_forward_parents() {
    let s = Schema::legalize(&empty_ns(), &Scope::root(), &schema(vec![entity("b", &["a"]), entity("a", &[])])).unwrap();
    assert_eq!(s.entities[0].supertypes, vec![1]);
    assert_eq!(s.entities[1].subtypes, vec![0]);
}

#[test]
fn unknown_parent_is_unresolved() {
    match Schema::legalize(&empty_ns(), &Scope::root(), &schema(vec![entity("a", &[]), entity("b", &["a", "zz"])])) {
        Err(SemanticError::UnresolvedName { name, scope }) => {
            assert_eq!(name, "zz");
            assert_eq!(scope, Scope::root().schema("s"));
        }
        other => panic!("unexpected {:?}", other),
    }
}

#[test]
fn legalize() {
    let example = SyntaxTree::parse(
        r#"
        SCHEMA example;
          ENTITY a;
            x: REAL;
          END_ENTITY;
          ENTITY b SUBTYPE OF (a);
            y: LIST [0:?] OF a;
          END_ENTITY;
        END_SCHEMA;
        "#,
    )
    .unwrap();
    let ns = Namespace::new(&example).unwrap();
    assert_eq!(ns.paths.len(), 2);
    let schema = Schema::legalize(&ns, &Scope::root(), &example.schemas[0]).unwrap();
    assert_eq!(schema.entities.len(), 2);
    assert_eq!(schema.entities[1].supertypes, vec![0]);
    assert_eq!(schema.entities[0].subtypes, vec![1]);
}

#[test]
fn inheritance_cycles_are_refused() {
    assert_eq!(
        Schema::legalize(&empty_ns(), &Scope::root(), &schema(vec![entity("a", &["b"]), entity("b", &["a"])])).unwrap_err(),
        SemanticError::CyclicInheritance
    );
    assert_eq!(
        Schema::legalize(&empty_ns(), &Scope::root(), &schema(vec![entity("a", &["a"])])).unwrap_err(),
        SemanticError::CyclicInheritance
    );
    assert_eq!(
        Schema::legalize(&empty_ns(), &Scope::root(), &schema(vec![
            entity("a", &[]),
            entity("b", &["a", "d"]),
            entity("c", &["b"]),
            entity("d", &["c"]),
        ]))
        .unwrap_err(),
        SemanticError::CyclicInheritance
    );
    assert!(Schema::legalize(&empty_ns(), &Scope::root(), &schema(vec![
        entity("a", &[]),
        entity("b", &["a"]),
        entity("c", &["a", "b"]),
    ]))
    .is_ok());
}

#[test]
fn first_unknown_parent_is_reported() {
    match Schema::legalize(&empty_ns(), &Scope::root(), &schema(vec![
        entity("a", &["a1"]),
        entity("b", &["b1", "b2"]),
    ])) {
        Err(SemanticError::UnresolvedName { name, .. }) => assert_eq!(name, "a1"),
        other => panic!("unexpected {:?}", other),
    }
}
