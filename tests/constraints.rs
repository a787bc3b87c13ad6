use asn1_codecs::constraints::{parse_constraint, parse_constraints};
use asn1_codecs::tokenizer::{tokenize, ParseError, TokenKind};

#[test]
fn parse_constraint_testcase() {
    struct ParseConstraintTestCase<'tc> {
        input: &'tc str,                   // Input String
        success: bool,                     // Check whether the constraint result is `is_ok`
        root_elements_count: usize,        // Members in root_elements
        additional_elements_present: bool, // Are additional Elements present?
        additional_elements_count: usize,  // Members in additional elements
    }

    let test_cases = vec![
        ParseConstraintTestCase {
            input: "(SIZE(1..10))",
            success: true,
            root_elements_count: 1,
            additional_elements_present: false,
            additional_elements_count: 0,
        },
        ParseConstraintTestCase {
            input: r#"(FROM("a".."z"))"#,
            success: true,
            root_elements_count: 1,
            additional_elements_present: false,
            additional_elements_count: 0,
        },
        ParseConstraintTestCase {
            input: r#"(FROM ({0, 0, 3, 112}..{0, 0, 3, 207}))"#,
            success: true,
            root_elements_count: 1,
            additional_elements_present: false,
            additional_elements_count: 0,
        },
    ];
    for tc in test_cases {
        let tokens = tokenize(tc.input.as_bytes());
        assert!(tokens.is_ok());
        let tokens = tokens.unwrap();

        let constraint = parse_constraint(&tokens);
        assert_eq!(
            constraint.is_ok(),
            tc.success,
            "{:#?}, {:#?}",
            tc.input,
            constraint.err()
        );

        if tc.success {
            let (constraint, consumed) = constraint.unwrap();

            assert_eq!(consumed, tokens.len(), "{:#?}", constraint);
            assert_eq!(
                constraint.root_elements.elements.len(),
                tc.root_elements_count,
                "{:#?}",
                constraint
            );

            assert_eq!(
                constraint.additional_elements.is_some(),
                tc.additional_elements_present,
                "{:#?}",
                constraint
            );

            if constraint.additional_elements.is_some() {
                assert_eq!(
                    &constraint
                        .additional_elements
                        .as_ref()
                        .unwrap()
                        .elements
                        .len(),
                    &tc.additional_elements_count,
                    "{:#?}",
                    constraint
                );
            }
        }
    }
}

#[test]
fn parse_extensible_constraint_with_union() {
    let tokens = tokenize(b"(1..10 | 20, ...)").unwrap();
    let (constraint, consumed) = parse_constraint(&tokens).unwrap();
    assert_eq!(consumed, tokens.len());
    assert_eq!(constraint.root_elements.elements.len(), 2);
    assert_eq!(constraint.additional_elements.unwrap().elements.len(), 0);
    let tokens = tokenize(b"(1 ^ 2, ... 3 | 4)").unwrap();
    let (constraint, consumed) = parse_constraint(&tokens).unwrap();
    assert_eq!(consumed, tokens.len());
    assert_eq!(constraint.root_elements.elements.len(), 1);
    assert_eq!(constraint.root_elements.elements[0].elements.len(), 2);
    assert_eq!(constraint.additional_elements.unwrap().elements.len(), 2);
}

#[test]
fn parse_constraint_errors() {
    let tokens = tokenize(b"()").unwrap();
    assert_eq!(parse_constraint(&tokens).err(), Some(ParseError::EmptySet));
    let tokens = tokenize(b"(1..10").unwrap();
    assert!(parse_constraint(&tokens).is_err());
    let tokens = tokenize(b"SIZE").unwrap();
    assert_eq!(parse_constraint(&tokens).err(), Some(ParseError::UnexpectedToken));
    assert_eq!(parse_constraint(&[]).err(), Some(ParseError::UnexpectedEnd));
    assert_eq!(tokenize(b"\"open").err(), Some(ParseError::InvalidInput));
}

#[test]
fn parse_several_constraints() {
    let tokens = tokenize(b"(MIN..MAX)(SIZE(1..4)) x").unwrap();
    let (constraints, consumed) = parse_constraints(&tokens).unwrap();
    assert_eq!(constraints.len(), 2);
    assert_eq!(consumed, tokens.len() - 1);
}

#[test]
fn tokenize_kinds() {
    let tokens = tokenize(b"( SIZE ... .. < ^ UNION value Type INTEGER -5 )").unwrap();
    let kinds: Vec<TokenKind> = tokens.iter().map(|t| t.kind).collect();
    assert_eq!(kinds.len(), 12);
    assert_eq!(kinds[0], TokenKind::RoundBegin);
    assert_eq!(kinds[2], TokenKind::Extension);
    assert_eq!(kinds[3], TokenKind::RangeSeparator);
    assert_eq!(kinds[6], TokenKind::SetUnion);
    assert_eq!(kinds[7], TokenKind::Identifier);
    assert_eq!(kinds[10], TokenKind::Number);
    assert_eq!(tokens[10].text, b"-5".to_vec());
}
