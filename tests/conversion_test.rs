use recorder::notation::parser::{Parser, Token};
use recorder::notation::{Notation, NotationType};
use recorder::tone::{convert_tone, visualize_tone, ConvertError, FingerTone, Tone};

fn pitch(kind: NotationType, number: u8, is_sharp: bool) -> Token {
    Token::Notation(Notation { kind, number, is_sharp })
}

#[test]
fn parse_single_symbol() {
    let p = Parser::from_str("1").unwrap();
    assert_eq!(p.inner, vec![vec![pitch(NotationType::Normal, 1, false)]]);
}

#[test]
fn parse_keeps_blank_lines() {
    let p = Parser::from_str("1\n\n  \n2\n").unwrap();
    assert_eq!(p.inner.len(), "1\n\n  \n2\n".lines().count());
    assert_eq!(p.inner.len(), 4);
    assert!(p.inner[1].is_empty());
    assert!(p.inner[2].is_empty());
    assert!(Parser::from_str("").unwrap().inner.is_empty());
    assert_eq!(Parser::from_str("\n").unwrap().inner.len(), 1);
}

#[test]
fn parse_trims_and_reads_comments() {
    let p = Parser::from_str("  // a comment  \r\n 3 \t").unwrap();
    assert_eq!(
        p.inner,
        vec![
            vec![Token::Raw("// a comment".to_string())],
            vec![pitch(NotationType::Normal, 3, false)],
        ]
    );
}

#[test]
fn parse_rejects_malformed_lines() {
    for text in ["8", "0", "*", ")", "[1", "(1", "[[1]", "((1)", "12", "(1)2", "#", "1 (", "1 [", "/"] {
        assert!(Parser::from_str(text).is_err(), "{:?} should not parse", text);
    }
}

#[test]
fn parse_modifiers_before_space() {
    let p = Parser::from_str("# 1").unwrap();
    assert_eq!(p.inner, vec![vec![Token::Whitespace, pitch(NotationType::Normal, 1, true)]]);
}

#[test]
fn key_names() {
    assert_eq!(FingerTone::from_str("c"), Some(FingerTone::C));
    assert_eq!(FingerTone::from_str("#c"), Some(FingerTone::SC));
    assert_eq!(FingerTone::from_str("#a"), Some(FingerTone::SA));
    assert_eq!(FingerTone::from_str("b"), Some(FingerTone::B));
    assert_eq!(FingerTone::from_str("C"), None);
    assert_eq!(FingerTone::from_str("#e"), None);
    assert_eq!(FingerTone::from_str(""), None);
}

#[test]
fn notation_examples() {
    assert_eq!(Tone::C.to_notation(FingerTone::C), "1");
    assert_eq!(Tone::D.to_notation(FingerTone::C), "2");
    assert_eq!(Tone::C.to_notation(FingerTone::D), "(#6)");
    assert_eq!(Tone::C.to_notation(FingerTone::B), "#1");
    assert_eq!(Tone::HHD.to_notation(FingerTone::B), "[[#2]]");
    assert_eq!(Tone::LLC.checked_notation(FingerTone::C), None);
    assert_eq!(Tone::HHB.checked_notation(FingerTone::C), None);
    assert_eq!(Tone::LG.checked_notation(FingerTone::C), Some("(5)".to_string()));
}

#[test]
fn notation_round_trip_every_tone_and_key() {
    let keys = ["c", "#c", "d", "#d", "e", "f", "#f", "g", "#g", "a", "#a", "b"];
    let mut written = 0;
    for name in keys {
        let key = FingerTone::from_str(name).unwrap();
        for i in 1..=60 {
            let tone = Tone::from_position(i).unwrap();
            assert_eq!(tone.position(), i);
            if let Some(text) = tone.checked_notation(key) {
                written += 1;
                assert_eq!(Tone::notation_to_tone(&text, key), Some(tone));
            }
        }
    }
    assert_eq!(written, 43 + 44 + 45 + 46 * 9);
    assert_eq!(Tone::from_position(0), None);
    assert_eq!(Tone::from_position(61), None);
}

#[test]
fn notation_outside_alphabet() {
    assert_eq!(Tone::notation_to_tone("#3", FingerTone::C), None);
    assert_eq!(Tone::notation_to_tone("[[4]]", FingerTone::C), None);
    assert_eq!(Tone::notation_to_tone("((4))", FingerTone::C), None);
    assert_eq!(Tone::notation_to_tone("x", FingerTone::C), None);
    assert_eq!(Tone::notation_to_tone("((5))", FingerTone::C), Some(Tone::LLG));
    assert_eq!(Tone::notation_to_tone("(5)", FingerTone::D), Some(Tone::LA));
}

#[test]
fn convert_identity() {
    assert_eq!(convert_tone("1", FingerTone::C, FingerTone::C), Ok("1".to_string()));
}

#[test]
fn convert_between_keys() {
    let out = convert_tone("1 2  #4\n\n// keep 1 2\n[1]", FingerTone::C, FingerTone::D).unwrap();
    assert_eq!(out, "(#6) 1  3\n\n// keep 1 2\n#6");
    let back = convert_tone(&out, FingerTone::D, FingerTone::C).unwrap();
    assert_eq!(back, "1 2  #4\n\n// keep 1 2\n[1]");
}

#[test]
fn convert_keeps_whitespace_count() {
    let text = "1  2 3\n4     5";
    let out = convert_tone(text, FingerTone::C, FingerTone::G).unwrap();
    let before = Parser::from_str(text).unwrap();
    let after = Parser::from_str(&out).unwrap();
    for (a, b) in before.inner.iter().zip(after.inner.iter()) {
        let count = |l: &Vec<Token>| l.iter().filter(|t| **t == Token::Whitespace).count();
        assert_eq!(count(a), count(b));
    }
    assert_eq!(out.matches(' ').count(), text.matches(' ').count());
}

#[test]
fn convert_errors() {
    assert!(matches!(convert_tone("8", FingerTone::C, FingerTone::C), Err(ConvertError::Parse(_))));
    assert!(matches!(convert_tone("#3", FingerTone::C, FingerTone::C), Err(ConvertError::NotFound(_))));
    assert!(matches!(convert_tone("[[3]]", FingerTone::C, FingerTone::B), Err(ConvertError::NotFound(_))));
    assert!(matches!(convert_tone("1\n[[4]]", FingerTone::C, FingerTone::C), Err(ConvertError::NotFound(_))));
}

#[test]
fn convert_is_deterministic() {
    let text = "1 #2 (5)\n// x\n[[1]]";
    let a = convert_tone(text, FingerTone::SC, FingerTone::F);
    let b = convert_tone(text, FingerTone::SC, FingerTone::F);
    assert_eq!(a, b);
    assert_eq!(visualize_tone(text, FingerTone::C), visualize_tone(text, FingerTone::C));
}

#[test]
fn visualize_single_symbol() {
    let out = visualize_tone("1", FingerTone::C).unwrap();
    assert_eq!(out, "●\n●\n●\n●\n-\n●\n●\n●\n●\n1\n");
}

#[test]
fn visualize_line_with_spaces_and_comment() {
    let out = visualize_tone("// song\n\n5 [1]", FingerTone::C).unwrap();
    let mut expected = String::new();
    for _ in 0..9 {
        expected.push_str("// song\n");
    }
    expected.push_str("// song\n\n");
    let g = ["●", "●", "●", "●", "-", "○", "○", "○", "○"];
    let hc = ["●", "○", "●", "○", "-", "○", "○", "○", "○"];
    for r in 0..9 {
        expected.push_str(g[r]);
        expected.push_str("     ");
        expected.push_str(hc[r]);
        expected.push('\n');
    }
    expected.push_str("5 [1]\n");
    assert_eq!(out, expected);
}

#[test]
fn visualize_errors() {
    assert!(matches!(visualize_tone("(1", FingerTone::C), Err(ConvertError::Parse(_))));
    assert!(matches!(visualize_tone("#7", FingerTone::C), Err(ConvertError::NotFound(_))));
    assert!(matches!(visualize_tone("(1)", FingerTone::C), Err(ConvertError::NotFound(_))));
    assert!(matches!(visualize_tone("[[3]]", FingerTone::C), Err(ConvertError::NotFound(_))));
}
