use recorder::notation::parser::{Parser, Token};
use recorder::notation::{Notation, NotationType};

#[test]
fn test_parse_from_str() {
    assert_eq!(Parser::from_str("1"), Ok(Parser { inner: vec![vec![Token::Notation(Notation {
        kind: NotationType::Normal,
        number: 1,
        is_sharp: false,
    })]]}));

    assert_eq!(Parser::from_str("1 #2 3\n4  5 "), Ok(Parser { inner: vec![
        vec![
            Token::Notation(Notation { kind: NotationType::Normal, number: 1, is_sharp: false }),
            Token::Whitespace,
            Token::Notation(Notation { kind: NotationType::Normal, number: 2, is_sharp: true }),
            Token::Whitespace,
            Token::Notation(Notation { kind: NotationType::Normal, number: 3, is_sharp: false }),
        ],
        vec![
            Token::Notation(Notation { kind: NotationType::Normal, number: 4, is_sharp: false }),
            Token::Whitespace,
            Token::Whitespace,
            Token::Notation(Notation { kind: NotationType::Normal, number: 5, is_sharp: false }),
        ]
    ]}));

    assert_eq!(Parser::from_str("(1) [#2] ((#7)) \n[[#4]] #5"), Ok(Parser { inner: vec![
        vec![
            Token::Notation(Notation { kind: NotationType::Low, number: 1, is_sharp: false }),
            Token::Whitespace,
            Token::Notation(Notation { kind: NotationType::High, number: 2, is_sharp: true }),
            Token::Whitespace,
            Token::Notation(Notation { kind: NotationType::LLow, number: 7, is_sharp: true }),
        ],
        vec![
            Token::Notation(Notation { kind: NotationType::HHigh, number: 4, is_sharp: true }),
            Token::Whitespace,
            Token::Notation(Notation { kind: NotationType::Normal, number: 5, is_sharp: true }),
        ]
    ]}));

    assert_eq!(Parser::from_str("(1) [2] ((7)) \n[[4]] 5"), Ok(Parser { inner: vec![
        vec![
            Token::Notation(Notation { kind: NotationType::Low, number: 1, is_sharp: false }),
            Token::Whitespace,
            Token::Notation(Notation { kind: NotationType::High, number: 2, is_sharp: false }),
            Token::Whitespace,
            Token::Notation(Notation { kind: NotationType::LLow, number: 7, is_sharp: false }),
        ],
        vec![
            Token::Notation(Notation { kind: NotationType::HHigh, number: 4, is_sharp: false }),
            Token::Whitespace,
            Token::Notation(Notation { kind: NotationType::Normal, number: 5, is_sharp: false }),
        ]
    ]}));

    assert!(Parser::from_str("8").is_err());
    assert!(Parser::from_str("*").is_err());
    assert!(Parser::from_str(")").is_err());
    assert!(Parser::from_str("[1").is_err());
    assert!(Parser::from_str("[[1").is_err());
    assert!(Parser::from_str("(1").is_err());
    assert!(Parser::from_str("((1").is_err());
}
