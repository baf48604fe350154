use espr::instances::{EntityInstance, InstanceTable, Parameter, Record, ResolveError};
use espr::token::Name;

fn simple(id: u64, keyword: &str, params: Vec<Parameter>) -> EntityInstance {
    EntityInstance::Simple {
        id,
        record: Record {
            keyword: keyword.to_string(),
            parameter: Parameter::List(params),
        },
    }
}

fn table() -> InstanceTable {
    InstanceTable::new(vec![
        simple(
            1,
            "FOO",
            vec![
                Parameter::String("hi".to_string()),
                Parameter::Ref(Name::Entity(2)),
            ],
        ),
        simple(2, "BAR", vec![Parameter::Enumeration("TRUE".to_string())]),
        EntityInstance::Complex {
            id: 7,
            records: vec![
                Record {
                    keyword: "BAR".to_string(),
                    parameter: Parameter::List(vec![Parameter::Omitted]),
                },
                Record {
                    keyword: "BAZ".to_string(),
                    parameter: Parameter::List(vec![Parameter::NotProvided]),
                },
            ],
        },
    ])
    .unwrap()
}

#[test]
fn get_follows_references() {
    let t = table();
    assert_eq!(t.len(), 3);
    let first = t.get(1).unwrap();
    let target = match first {
        EntityInstance::Simple { record, .. } => match &record.parameter {
            Parameter::List(ps) => match &ps[1] {
                Parameter::Ref(Name::Entity(id)) => *id,
                other => panic!("unexpected {:?}", other),
            },
            other => panic!("unexpected {:?}", other),
        },
        other => panic!("unexpected {:?}", other),
    };
    assert_eq!(target, 2);
    match t.get(target).unwrap() {
        EntityInstance::Simple { record, .. } => match &record.parameter {
            Parameter::List(ps) => match &ps[0] {
                Parameter::Enumeration(e) => assert_eq!(e, "TRUE"),
                other => panic!("unexpected {:?}", other),
            },
            other => panic!("unexpected {:?}", other),
        },
        other => panic!("unexpected {:?}", other),
    }
}

#[test]
fn missing_reference() {
    let t = table();
    assert_eq!(t.get(3).unwrap_err(), ResolveError::MissingReference(3));
}

#[test]
fn duplicate_ids_are_refused() {
    let r = InstanceTable::new(vec![
        simple(4, "A", vec![]),
        simple(5, "B", vec![]),
        simple(4, "C", vec![]),
    ]);
    assert_eq!(r.unwrap_err(), ResolveError::DuplicateInstance(4));
}

#[test]
fn ids_by_keyword_in_source_order() {
    let t = table();
    assert_eq!(t.ids_by_keyword("BAR"), vec![2, 7]);
    assert_eq!(t.ids_by_keyword("BAZ"), vec![7]);
    assert_eq!(t.ids_by_keyword("FOO"), vec![1]);
    assert_eq!(t.ids_by_keyword("NONE"), Vec::<u64>::new());
}
