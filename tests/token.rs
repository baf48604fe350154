use espr::token::{
    anchor_name, constant_entity_name, constant_value_name, entity_instance_name, enumeration,
    integer, keyword, lhs_occurrence_name, real_literal, resource, rhs_occurrence_name, sign,
    signature_content, standard_keyword, string, tag_name, user_defined_keyword,
    value_instance_name, Name, RealLiteral, TokenError,
};

fn to_f64(r: &RealLiteral) -> f64 {
    let v: f64 = format!("{}.{}e{}", r.integral, r.fractional, r.exponent)
        .parse()
        .unwrap();
    if r.negative {
        -v
    } else {
        v
    }
}

#[test]
fn real_number() {
    let (res, s) = real_literal("1.23").unwrap();
    assert_eq!(res, "");
    assert_eq!(to_f64(&s), 1.23);

    let (res, s) = real_literal("1.23E4").unwrap();
    assert_eq!(res, "");
    assert_eq!(to_f64(&s), 1.23e4);

    let (res, s) = real_literal("1.23E-4").unwrap();
    assert_eq!(res, "");
    assert_eq!(to_f64(&s), 1.23e-4);

    let (res, s) = real_literal("-1.23E4").unwrap();
    assert_eq!(res, "");
    assert_eq!(to_f64(&s), -1.23e4);

    let (res, s) = real_literal("-1.23E-4").unwrap();
    assert_eq!(res, "");
    assert_eq!(to_f64(&s), -1.23e-4);

    assert!(real_literal("123").is_err());
}

#[test]
fn token_string() {
    let (res, s) = string("'vim'").unwrap();
    assert_eq!(res, "");
    assert_eq!(s, "vim");
}

#[test]
fn escaped_string() {
    let (res, s) = string("'vim''s'").unwrap();
    assert_eq!(res, "");
    assert_eq!(s, "vim's");
}

#[test]
fn instance_name() {
    let (res, s) = entity_instance_name("#18446744073709551615").unwrap();
    assert_eq!(res, "");
    assert_eq!(s, u64::MAX);

    let (res, s) = value_instance_name("@18446744073709551615").unwrap();
    assert_eq!(res, "");
    assert_eq!(s, u64::MAX);

    assert!(entity_instance_name("#18446744073709551616").is_err());
    assert!(value_instance_name("@18446744073709551616").is_err());

    let (res, s) = entity_instance_name("#001").unwrap();
    assert_eq!(res, "");
    assert_eq!(s, 1);
    let (res, s) = value_instance_name("@001").unwrap();
    assert_eq!(res, "");
    assert_eq!(s, 1);
}

#[test]
fn instance_name_round_trips_decimal_forms() {
    for n in [0u64, 7, 10, 42, 1000, 123456789, u64::MAX - 1, u64::MAX] {
        let text = format!("#{}", n);
        assert_eq!(entity_instance_name(&text).unwrap(), ("", n));
        let padded = format!("#000{}", n);
        assert_eq!(entity_instance_name(&padded).unwrap(), ("", n));
        let value = format!("@0{}", n);
        assert_eq!(value_instance_name(&value).unwrap(), ("", n));
    }
}

#[test]
fn instance_name_overflow_is_reported() {
    assert_eq!(
        entity_instance_name("#18446744073709551616"),
        Err(TokenError::ReferenceOverflow)
    );
    assert_eq!(
        entity_instance_name("#99999999999999999999999"),
        Err(TokenError::ReferenceOverflow)
    );
    assert_eq!(
        value_instance_name("@100000000000000000000"),
        Err(TokenError::ReferenceOverflow)
    );
}

#[test]
fn instance_name_stops_at_first_non_digit() {
    assert_eq!(entity_instance_name("#12=FOO"), Ok(("=FOO", 12)));
    assert_eq!(entity_instance_name("#"), Err(TokenError::Mismatch));
    assert_eq!(entity_instance_name("@1"), Err(TokenError::Mismatch));
    assert_eq!(value_instance_name("#1"), Err(TokenError::Mismatch));
}

#[test]
fn apostrophes_escape_round_trip() {
    for text in ["", "o'clock", "'", "''", "a'b'c", "no quote", "back\\slash"] {
        let quoted = format!("'{}'", text.replace('\'', "''"));
        let (rest, value) = string(&quoted).unwrap();
        assert_eq!(rest, "");
        assert_eq!(value, text);
    }
}

#[test]
fn oclock_string() {
    let (rest, value) = string("'o''clock'").unwrap();
    assert_eq!(rest, "");
    assert_eq!(value, "o'clock");
    assert_eq!(value.chars().count(), 7);
}

#[test]
fn string_errors_and_rest() {
    assert_eq!(string("'abc"), Err(TokenError::UnterminatedString));
    assert_eq!(string("abc'"), Err(TokenError::Mismatch));
    assert_eq!(string("'a', #2"), Ok((", #2", "a".to_string())));
}

#[test]
fn integer_values() {
    assert_eq!(integer("42"), Ok(("", 42)));
    assert_eq!(integer("-17,"), Ok((",", -17)));
    assert_eq!(integer("+ 8"), Ok(("", 8)));
    assert_eq!(integer("9223372036854775807"), Ok(("", i64::MAX)));
    assert_eq!(integer("-9223372036854775808"), Ok(("", i64::MIN)));
    assert_eq!(integer("9223372036854775808"), Err(TokenError::InvalidNumber));
    assert_eq!(integer("-"), Err(TokenError::Mismatch));
    assert_eq!(integer("x1"), Err(TokenError::Mismatch));
}

#[test]
fn integer_never_reads_a_point() {
    assert_eq!(integer("1.5"), Ok((".5", 1)));
    assert!(integer(".5").is_err());
}

#[test]
fn real_needs_a_point() {
    assert!(real_literal("123").is_err());
    assert!(real_literal("-42E3").is_err());
    let (rest, r) = real_literal("1.").unwrap();
    assert_eq!(rest, "");
    assert_eq!(r.integral, "1");
    assert_eq!(r.fractional, "");
    assert_eq!(r.exponent, 0);
    let (rest, r) = real_literal("2.5E").unwrap();
    assert_eq!(rest, "E");
    assert_eq!(to_f64(&r), 2.5);
    assert_eq!(
        real_literal("1.0E99999999999999999999"),
        Err(TokenError::InvalidNumber)
    );
}

#[test]
fn sign_token() {
    assert_eq!(sign("+1"), Ok(("1", '+')));
    assert_eq!(sign("-"), Ok(("", '-')));
    assert_eq!(sign("1"), Err(TokenError::Mismatch));
}

#[test]
fn keywords() {
    assert_eq!(standard_keyword("FOO2(1)"), Ok(("(1)", "FOO2".to_string())));
    assert_eq!(standard_keyword("foo"), Err(TokenError::Mismatch));
    assert_eq!(user_defined_keyword("!MY_X-"), Ok(("-", "MY_X".to_string())));
    assert_eq!(keyword("!ABC"), Ok(("", "ABC".to_string())));
    assert_eq!(keyword("ABC"), Ok(("", "ABC".to_string())));
    assert_eq!(keyword("!abc"), Err(TokenError::Mismatch));
    assert_eq!(tag_name("a1B2-"), Ok(("-", "a1B2".to_string())));
    assert_eq!(tag_name("1a"), Err(TokenError::Mismatch));
}

#[test]
fn enumeration_token() {
    assert_eq!(enumeration(".TRUE.)"), Ok((")", "TRUE".to_string())));
    assert_eq!(enumeration(".TRUE"), Err(TokenError::Mismatch));
    assert_eq!(enumeration("TRUE."), Err(TokenError::Mismatch));
}

#[test]
fn resources_and_anchors() {
    assert_eq!(
        resource("<http://a.b/c#d>;"),
        Ok((";", "http://a.b/c#d".to_string()))
    );
    assert_eq!(anchor_name("<frag>"), Ok(("", "frag".to_string())));
    assert_eq!(resource("<open"), Err(TokenError::Mismatch));
}

#[test]
fn signature_text() {
    assert_eq!(
        signature_content("QUJD+/==;"),
        Ok((";", "QUJD+/==".to_string()))
    );
    assert_eq!(signature_content(";"), Err(TokenError::Mismatch));
}

#[test]
fn occurrence_names() {
    assert_eq!(lhs_occurrence_name("#5"), Ok(("", Name::Entity(5))));
    assert_eq!(lhs_occurrence_name("@6"), Ok(("", Name::Value(6))));
    assert_eq!(lhs_occurrence_name("#ABC"), Err(TokenError::Mismatch));
    assert_eq!(
        rhs_occurrence_name("#ABC"),
        Ok(("", Name::ConstantEntity("ABC".to_string())))
    );
    assert_eq!(
        rhs_occurrence_name("@PI"),
        Ok(("", Name::ConstantValue("PI".to_string())))
    );
    assert_eq!(
        rhs_occurrence_name("#99999999999999999999"),
        Err(TokenError::ReferenceOverflow)
    );
    assert_eq!(constant_entity_name("#X1"), Ok(("", "X1".to_string())));
    assert_eq!(constant_value_name("@X1"), Ok(("", "X1".to_string())));
}
