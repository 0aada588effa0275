use apple_codesign::error::CodesignError;
use apple_codesign::requirement::{DataMatch, DateMatch, Expression, MatchExpression};
use apple_codesign::requirement_set::{Requirement, RequirementSet, REQUIREMENT_DESIGNATED, REQUIREMENT_HOST};

fn ident(text: &str) -> Expression {
    Expression::Ident(text.as_bytes().to_vec())
}

fn samples() -> Vec<Expression> {
    vec![
        Expression::False,
        Expression::True,
        ident(""),
        ident("a"),
        ident("com.example.app"),
        Expression::AppleAnchor,
        Expression::AnchorHash(-1, vec![0xab; 20]),
        Expression::InfoKeyValue(b"CFBundleName".to_vec(), b"Example".to_vec()),
        Expression::And(Box::new(ident("x")), Box::new(Expression::AppleAnchor)),
        Expression::Or(Box::new(Expression::True), Box::new(Expression::False)),
        Expression::CDHash(vec![1, 2, 3, 4, 5]),
        Expression::Not(Box::new(Expression::TrustedCerts)),
        Expression::InfoKeyField(b"key".to_vec(), MatchExpression::Exists),
        Expression::CertField(
            0,
            b"subject.CN".to_vec(),
            MatchExpression::Data(DataMatch::Equal, b"Developer ID".to_vec()),
        ),
        Expression::CertGeneric(1, vec![0x2a, 0x86, 0x48], MatchExpression::Absent),
        Expression::CertPolicy(
            -1,
            vec![0x55, 0x1d],
            MatchExpression::Data(DataMatch::BeginsWith, b"ab".to_vec()),
        ),
        Expression::TrustedCert(2),
        Expression::TrustedCerts,
        Expression::CertFieldDate(
            0,
            vec![0x2a],
            MatchExpression::Date(DateMatch::OnOrAfter, -86_400),
        ),
        Expression::Not(Box::new(Expression::And(
            Box::new(Expression::Or(Box::new(ident("a")), Box::new(ident("bc")))),
            Box::new(Expression::Not(Box::new(ident("def")))),
        ))),
    ]
}

#[test]
fn requirement_round_trip_of_every_opcode() {
    for expression in samples() {
        assert!(expression.fits());
        let bytes = expression.serialize();
        assert_eq!(bytes.len() % 4, 0, "{:?}", expression);
        assert_eq!(Expression::parse(&bytes), Ok(expression));
    }
}

#[test]
fn requirement_round_trip_of_every_match() {
    let mut matches = vec![MatchExpression::Exists, MatchExpression::Absent];
    for op in [
        DataMatch::Equal,
        DataMatch::Contains,
        DataMatch::BeginsWith,
        DataMatch::EndsWith,
        DataMatch::LessThan,
        DataMatch::GreaterThan,
        DataMatch::LessEqual,
        DataMatch::GreaterEqual,
    ] {
        matches.push(MatchExpression::Data(op, b"value".to_vec()));
    }
    for op in [
        DateMatch::On,
        DateMatch::Before,
        DateMatch::After,
        DateMatch::OnOrBefore,
        DateMatch::OnOrAfter,
    ] {
        matches.push(MatchExpression::Date(op, 1_600_000_000));
        matches.push(MatchExpression::Date(op, i64::MIN));
        matches.push(MatchExpression::Date(op, i64::MAX));
    }
    for m in matches {
        let expression = Expression::InfoKeyField(b"k".to_vec(), m);
        let bytes = expression.serialize();
        assert_eq!(bytes.len() % 4, 0);
        assert_eq!(Expression::parse(&bytes), Ok(expression));
    }
}

#[test]
fn requirement_bytes_of_identifier_and_anchor() {
    let expression = Expression::And(
        Box::new(ident("com.example.app")),
        Box::new(Expression::AppleAnchor),
    );
    let mut expected = vec![0, 0, 0, 6, 0, 0, 0, 2, 0, 0, 0, 15];
    expected.extend_from_slice(b"com.example.app");
    expected.push(0);
    expected.extend_from_slice(&[0, 0, 0, 3]);
    assert_eq!(expression.serialize(), expected);
}

#[test]
fn requirement_opcodes_are_those_of_the_format() {
    let slot_and_hash = Expression::AnchorHash(1, vec![7]).serialize();
    assert_eq!(slot_and_hash, vec![0, 0, 0, 4, 0, 0, 0, 1, 0, 0, 0, 1, 7, 0, 0, 0]);
    assert_eq!(Expression::False.serialize(), vec![0, 0, 0, 0]);
    assert_eq!(Expression::True.serialize(), vec![0, 0, 0, 1]);
    assert_eq!(Expression::AppleAnchor.serialize(), vec![0, 0, 0, 3]);
    assert_eq!(Expression::TrustedCerts.serialize(), vec![0, 0, 0, 15]);
    assert_eq!(Expression::TrustedCert(-1).serialize(), vec![0, 0, 0, 14, 0xff, 0xff, 0xff, 0xff]);
    assert_eq!(Expression::CDHash(vec![]).serialize(), vec![0, 0, 0, 8, 0, 0, 0, 0]);
    assert_eq!(Expression::Not(Box::new(Expression::True)).serialize()[..4], [0, 0, 0, 9]);
    assert_eq!(Expression::Or(Box::new(Expression::True), Box::new(Expression::True)).serialize()[..4], [0, 0, 0, 7]);
    assert_eq!(
        Expression::CertFieldDate(0, vec![], MatchExpression::Date(DateMatch::On, 1)).serialize(),
        vec![0, 0, 0, 16, 0, 0, 0, 0, 0, 0, 0, 0, 0, 0, 0, 9, 0, 0, 0, 0, 0, 0, 0, 1]
    );
}

#[test]
fn requirement_padding_is_not_counted_in_the_length() {
    for len in 0usize..9 {
        let bytes = Expression::Ident(vec![b'x'; len]).serialize();
        assert_eq!(&bytes[4..8], &(len as u32).to_be_bytes());
        assert_eq!(bytes.len(), 8 + (len + 3) / 4 * 4);
        assert!(bytes[8 + len..].iter().all(|b| *b == 0));
    }
}

#[test]
fn requirement_with_unknown_opcode_is_refused() {
    assert_eq!(Expression::parse(&[0, 0, 0, 17]), Err(CodesignError::UnknownRequirementOpcode));
    assert_eq!(
        Expression::parse(&[0, 0, 0, 9, 0xff, 0, 0, 0]),
        Err(CodesignError::UnknownRequirementOpcode)
    );
}

#[test]
fn requirement_with_unknown_match_is_refused() {
    let bytes = [0, 0, 0, 10, 0, 0, 0, 1, b'k', 0, 0, 0, 0, 0, 0, 15];
    assert_eq!(Expression::parse(&bytes), Err(CodesignError::UnknownRequirementOpcode));
}

#[test]
fn requirement_that_ends_early_is_truncated() {
    assert_eq!(Expression::parse(&[]), Err(CodesignError::BlobTruncated));
    assert_eq!(Expression::parse(&[0, 0, 0]), Err(CodesignError::BlobTruncated));
    assert_eq!(Expression::parse(&[0, 0, 0, 6, 0, 0, 0, 1]), Err(CodesignError::BlobTruncated));
    assert_eq!(Expression::parse(&[0, 0, 0, 2, 0, 0, 0, 5, b'a', b'b']), Err(CodesignError::BlobTruncated));
    // The padding of a string belongs to it.
    assert_eq!(Expression::parse(&[0, 0, 0, 2, 0, 0, 0, 1, b'a']), Err(CodesignError::BlobTruncated));
}

#[test]
fn requirement_parse_hands_back_what_follows() {
    let mut bytes = ident("ab").serialize();
    bytes.extend_from_slice(&[9, 9]);
    let (expression, rest) = Expression::parse_prefix(&bytes).unwrap();
    assert_eq!(expression, ident("ab"));
    assert_eq!(rest, &[9, 9]);
}

#[test]
fn requirement_binary_operators_stay_binary() {
    let left = Expression::And(
        Box::new(Expression::And(Box::new(ident("a")), Box::new(ident("b")))),
        Box::new(ident("c")),
    );
    let right = Expression::And(
        Box::new(ident("a")),
        Box::new(Expression::And(Box::new(ident("b")), Box::new(ident("c")))),
    );
    assert_ne!(left.serialize(), right.serialize());
    assert_eq!(Expression::parse(&left.serialize()), Ok(left));
    assert_eq!(Expression::parse(&right.serialize()), Ok(right));
}

#[test]
fn requirement_display_of_identifier_and_anchor() {
    let expression = Expression::And(
        Box::new(ident("com.example.app")),
        Box::new(Expression::AppleAnchor),
    );
    assert_eq!(expression.display(), "identifier \"com.example.app\" and anchor apple");
    let other = Expression::And(Box::new(Expression::AppleAnchor), Box::new(ident("com.example")));
    assert_eq!(other.display(), "anchor apple and identifier \"com.example\"");
}

#[test]
fn requirement_display_survives_the_binary_form() {
    let expression = Expression::And(
        Box::new(ident("com.example.app")),
        Box::new(Expression::AppleAnchor),
    );
    let blob = expression.to_blob_bytes();
    let parsed = Expression::from_blob_bytes(&blob).unwrap();
    assert_eq!(parsed.display(), "identifier \"com.example.app\" and anchor apple");
}

#[test]
fn requirement_display_of_every_node() {
    assert_eq!(Expression::False.display(), "never");
    assert_eq!(Expression::True.display(), "always");
    assert_eq!(Expression::TrustedCerts.display(), "anchor trusted");
    assert_eq!(Expression::TrustedCert(0).display(), "certificate leaf trusted");
    assert_eq!(Expression::TrustedCert(-1).display(), "certificate root trusted");
    assert_eq!(Expression::TrustedCert(3).display(), "certificate 3 trusted");
    assert_eq!(Expression::TrustedCert(-12).display(), "certificate -12 trusted");
    assert_eq!(Expression::CDHash(vec![0x01, 0xab]).display(), "cdhash H\"01ab\"");
    assert_eq!(Expression::AnchorHash(-1, vec![0xff]).display(), "certificate root = H\"ff\"");
    assert_eq!(
        Expression::InfoKeyValue(b"k".to_vec(), b"v".to_vec()).display(),
        "info[k] = \"v\""
    );
    assert_eq!(
        Expression::InfoKeyField(b"k".to_vec(), MatchExpression::Exists).display(),
        "info[k] /* exists */"
    );
    assert_eq!(
        Expression::CertField(0, b"subject.OU".to_vec(), MatchExpression::Data(DataMatch::Equal, b"TEAM".to_vec())).display(),
        "certificate leaf[subject.OU] = \"TEAM\""
    );
    assert_eq!(
        Expression::CertGeneric(1, vec![0x2a, 0x03], MatchExpression::Absent).display(),
        "certificate 1[field.2a03] absent"
    );
    assert_eq!(
        Expression::CertPolicy(0, vec![0x55], MatchExpression::Data(DataMatch::BeginsWith, b"a".to_vec())).display(),
        "certificate leaf[policy.55] = \"a*\""
    );
    assert_eq!(
        Expression::CertField(0, b"f".to_vec(), MatchExpression::Data(DataMatch::EndsWith, b"z".to_vec())).display(),
        "certificate leaf[f] = \"*z\""
    );
    assert_eq!(
        Expression::CertField(0, b"f".to_vec(), MatchExpression::Data(DataMatch::Contains, b"z".to_vec())).display(),
        "certificate leaf[f] ~ \"z\""
    );
    assert_eq!(
        Expression::CertField(0, b"f".to_vec(), MatchExpression::Data(DataMatch::LessEqual, b"z".to_vec())).display(),
        "certificate leaf[f] <= \"z\""
    );
    assert_eq!(
        Expression::CertFieldDate(0, vec![0x01], MatchExpression::Date(DateMatch::Before, 1234567890)).display(),
        "certificate leaf[timestamp.01] < timestamp \"1234567890\""
    );
    assert_eq!(
        Expression::CertFieldDate(0, vec![0x01], MatchExpression::Date(DateMatch::OnOrAfter, -5)).display(),
        "certificate leaf[timestamp.01] >= timestamp \"-5\""
    );
}

#[test]
fn requirement_display_sets_parentheses_where_needed() {
    let or = Expression::Or(Box::new(ident("a")), Box::new(ident("b")));
    let and = Expression::And(Box::new(ident("c")), Box::new(ident("d")));
    assert_eq!(
        Expression::And(Box::new(or), Box::new(ident("e"))).display(),
        "(identifier \"a\" or identifier \"b\") and identifier \"e\""
    );
    assert_eq!(
        Expression::Or(Box::new(and), Box::new(ident("e"))).display(),
        "identifier \"c\" and identifier \"d\" or identifier \"e\""
    );
    let and = Expression::And(Box::new(ident("c")), Box::new(ident("d")));
    assert_eq!(
        Expression::Not(Box::new(and)).display(),
        "! (identifier \"c\" and identifier \"d\")"
    );
    assert_eq!(Expression::Not(Box::new(Expression::AppleAnchor)).display(), "! anchor apple");
}

#[test]
fn requirement_display_escapes_what_is_not_plain() {
    assert_eq!(
        Expression::Ident(vec![b'a', b'"', b'\\', 0x00, 0x7f, 0xc3, b' ', b'~']).display(),
        "identifier \"a\\x22\\x5c\\x00\\x7f\\xc3 ~\""
    );
}

#[test]
fn requirement_blob_frames_the_expression() {
    let blob = ident("ab").to_blob_bytes();
    assert_eq!(
        blob,
        vec![0xfa, 0xde, 0x0c, 0x00, 0, 0, 0, 20, 0, 0, 0, 2, 0, 0, 0, 2, b'a', b'b', 0, 0]
    );
    assert_eq!(Expression::from_blob_bytes(&blob), Ok(ident("ab")));
    let mut other = blob.clone();
    other[3] = 0x02;
    assert_eq!(Expression::from_blob_bytes(&other), Err(CodesignError::BlobBadMagic));
}

#[test]
fn requirement_set_round_trip() {
    let set = RequirementSet {
        requirements: vec![
            Requirement { kind: REQUIREMENT_HOST, expression: Expression::True },
            Requirement {
                kind: REQUIREMENT_DESIGNATED,
                expression: Expression::And(
                    Box::new(ident("com.example.app")),
                    Box::new(Expression::AppleAnchor),
                ),
            },
        ],
    };
    let bytes = set.to_blob_bytes().unwrap();
    assert_eq!(&bytes[..4], &[0xfa, 0xde, 0x0c, 0x01]);
    assert_eq!(&bytes[4..8], &(bytes.len() as u32).to_be_bytes());
    assert_eq!(&bytes[8..12], &[0, 0, 0, 2]);
    assert_eq!(&bytes[12..16], &[0, 0, 0, 1]);
    assert_eq!(&bytes[16..20], &[0, 0, 0, 28]);
    assert_eq!(&bytes[20..24], &[0, 0, 0, 3]);
    assert_eq!(&bytes[24..28], &[0, 0, 0, 40]);
    assert_eq!(&bytes[28..40], &[0xfa, 0xde, 0x0c, 0x00, 0, 0, 0, 12, 0, 0, 0, 1]);
    assert_eq!(RequirementSet::from_blob_bytes(&bytes), Ok(set));
}

#[test]
fn requirement_set_without_requirements() {
    let set = RequirementSet { requirements: vec![] };
    let bytes = set.to_blob_bytes().unwrap();
    assert_eq!(bytes, vec![0xfa, 0xde, 0x0c, 0x01, 0, 0, 0, 12, 0, 0, 0, 0]);
    assert_eq!(RequirementSet::from_blob_bytes(&bytes), Ok(set));
}

#[test]
fn requirement_set_with_a_broken_requirement_is_refused() {
    let set = RequirementSet {
        requirements: vec![Requirement { kind: 3, expression: Expression::True }],
    };
    let mut bytes = set.to_blob_bytes().unwrap();
    let last = bytes.len() - 1;
    bytes[last] = 99;
    assert_eq!(
        RequirementSet::from_blob_bytes(&bytes),
        Err(CodesignError::UnknownRequirementOpcode)
    );
}

#[test]
fn data_match_codes() {
    for code in 0u32..20 {
        match DataMatch::from_code(code) {
            Some(op) => {
                assert!((1..=8).contains(&code));
                assert_eq!(op.code(), code);
            }
            None => assert!(!(1..=8).contains(&code)),
        }
        match DateMatch::from_code(code) {
            Some(op) => {
                assert!((9..=13).contains(&code));
                assert_eq!(op.code(), code);
            }
            None => assert!(!(9..=13).contains(&code)),
        }
    }
}
