use espr::exchange::{entity_instance, exchange_file, parameter, record};
use espr::instances::{EntityInstance, InstanceTable, Parameter};
use espr::token::{Name, TokenError};

fn list(p: &Parameter) -> &Vec<Parameter> {
    match p {
        Parameter::List(v) => v,
        other => panic!("not a list: {:?}", other),
    }
}

fn simple_params(e: &EntityInstance) -> &Vec<Parameter> {
    match e {
        EntityInstance::Simple { record, .. } => list(&record.parameter),
        other => panic!("not simple: {:?}", other),
    }
}

#[test]
fn two_instance_file_resolves_references() {
    let text = "ISO-10303-21;\nHEADER;\nFILE_DESCRIPTION(('x'),'2;1');\nFILE_NAME('a','b',(''),(''),'','','');\nFILE_SCHEMA(('S'));\nENDSEC;\nDATA;\n#1=FOO('hi', #2);\n#2=BAR(.TRUE.);\nENDSEC;\nEND-ISO-10303-21;\n";
    let (rest, file) = exchange_file(text).unwrap();
    assert_eq!(rest, "\n");
    assert_eq!(file.header.len(), 3);
    assert_eq!(file.header[0].keyword, "FILE_DESCRIPTION");
    assert_eq!(file.header[2].keyword, "FILE_SCHEMA");
    assert_eq!(file.data.len(), 1);
    let data = file.data.into_iter().next().unwrap();
    assert_eq!(data.len(), 2);
    let table = InstanceTable::new(data).unwrap();

    let first = simple_params(table.get(1).unwrap());
    assert!(matches!(&first[0], Parameter::String(s) if s == "hi"));
    assert!(matches!(&first[1], Parameter::Ref(Name::Entity(2))));
    let second = simple_params(table.get(2).unwrap());
    assert!(matches!(&second[0], Parameter::Enumeration(e) if e == "TRUE"));
}

#[test]
fn file_needs_its_envelope() {
    let body = "HEADER;A();B();C();ENDSEC;DATA;ENDSEC;";
    assert!(exchange_file(&format!("ISO-10303-21;{}END-ISO-10303-21;", body)).is_ok());
    assert_eq!(
        exchange_file(&format!("{}END-ISO-10303-21;", body)).unwrap_err(),
        TokenError::Mismatch
    );
    assert_eq!(
        exchange_file(&format!("ISO-10303-21;{}", body)).unwrap_err(),
        TokenError::Mismatch
    );
    assert!(exchange_file("ISO-10303-21;HEADER;A();B();ENDSEC;DATA;ENDSEC;END-ISO-10303-21;").is_err());
}

#[test]
fn several_data_sections() {
    let text = "ISO-10303-21; HEADER; A(); B(); C(); ENDSEC; DATA; #1=X(); ENDSEC; DATA; #2=Y(); #3=Z(); ENDSEC; END-ISO-10303-21;";
    let (_, file) = exchange_file(text).unwrap();
    assert_eq!(file.data.len(), 2);
    assert_eq!(file.data[0].len(), 1);
    assert_eq!(file.data[1].len(), 2);
}

#[test]
fn parameters_of_every_kind() {
    assert!(matches!(parameter("$").unwrap(), ("", Parameter::Omitted)));
    assert!(matches!(parameter(" *,").unwrap(), (",", Parameter::NotProvided)));
    assert!(matches!(parameter("12").unwrap(), ("", Parameter::Integer(12))));
    assert!(matches!(parameter("-3").unwrap(), ("", Parameter::Integer(-3))));
    match parameter("2.5E1").unwrap() {
        ("", Parameter::Real(r)) => {
            assert_eq!(r.integral, "2");
            assert_eq!(r.fractional, "5");
            assert_eq!(r.exponent, 1);
        }
        other => panic!("unexpected {:?}", other),
    }
    assert!(matches!(parameter("@7").unwrap(), ("", Parameter::Ref(Name::Value(7)))));
    assert!(matches!(parameter("#C1").unwrap(), ("", Parameter::Ref(Name::ConstantEntity(_)))));
    match parameter("LENGTH_MEASURE( 3.0 )").unwrap() {
        ("", Parameter::Typed(k, inner)) => {
            assert_eq!(k, "LENGTH_MEASURE");
            assert!(matches!(*inner, Parameter::Real(_)));
        }
        other => panic!("unexpected {:?}", other),
    }
    match parameter("(1, (2, 3), ())").unwrap() {
        ("", Parameter::List(v)) => {
            assert_eq!(v.len(), 3);
            assert_eq!(list(&v[1]).len(), 2);
            assert_eq!(list(&v[2]).len(), 0);
        }
        other => panic!("unexpected {:?}", other),
    }
    assert_eq!(parameter("(1,").unwrap_err(), TokenError::Mismatch);
    assert_eq!(parameter("?").unwrap_err(), TokenError::Mismatch);
    assert_eq!(
        parameter("#18446744073709551616").unwrap_err(),
        TokenError::ReferenceOverflow
    );
}

#[test]
fn records_and_complex_instances() {
    let (rest, r) = record("FOO ( 1 , 'a' ) ;").unwrap();
    assert_eq!(rest, " ;");
    assert_eq!(r.keyword, "FOO");
    assert_eq!(list(&r.parameter).len(), 2);

    let (rest, e) = entity_instance("#10 = ( A(1) B(.X.) ) ;#11").unwrap();
    assert_eq!(rest, "#11");
    match e {
        EntityInstance::Complex { id, records } => {
            assert_eq!(id, 10);
            assert_eq!(records.len(), 2);
            assert_eq!(records[1].keyword, "B");
        }
        other => panic!("unexpected {:?}", other),
    }
    assert_eq!(entity_instance("#1=FOO()").unwrap_err(), TokenError::Mismatch);
    assert_eq!(entity_instance("#1 FOO();").unwrap_err(), TokenError::Mismatch);
}

#[test]
fn anchor_reference_and_signature_sections() {
    let text = "ISO-10303-21; HEADER; A(); B(); C(); ENDSEC;\nANCHOR; <top> = #1; <note> = 'x;y'; ENDSEC;\nREFERENCE; #5 = <http://example.org/part#9>; ENDSEC;\nDATA; #1=X(); ENDSEC;\nEND-ISO-10303-21;\nSIGNATURE QUJD+/== ENDSEC;\n";
    let (rest, file) = exchange_file(text).unwrap();
    assert_eq!(rest, "\n");
    assert_eq!(
        file.anchors,
        vec![
            ("top".to_string(), "#1".to_string()),
            ("note".to_string(), "'x;y'".to_string())
        ]
    );
    assert_eq!(
        file.references,
        vec![(Name::Entity(5), "http://example.org/part#9".to_string())]
    );
    assert_eq!(file.data.len(), 1);
    assert_eq!(file.signatures, vec!["QUJD+/==".to_string()]);
    assert!(exchange_file("ISO-10303-21; HEADER; A(); B(); C(); ENDSEC; ANCHOR; <a> 1; ENDSEC; DATA; ENDSEC; END-ISO-10303-21;").is_err());
    assert!(exchange_file("ISO-10303-21; HEADER; A(); B(); C(); ENDSEC; DATA; ENDSEC; END-ISO-10303-21; SIGNATURE ENDSEC;").is_err());
}
