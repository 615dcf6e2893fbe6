use recorder::tone::{FingerTone, Tone};

#[test]
fn test_to_notation() {
    assert_eq!(Tone::C.to_notation(FingerTone::C), "1");
    assert_eq!(Tone::D.to_notation(FingerTone::C), "2");
    assert_eq!(Tone::C.to_notation(FingerTone::D), "(#6)");
    assert_eq!(Tone::SC.to_notation(FingerTone::SC), "1");
    assert_eq!(Tone::HHD.to_notation(FingerTone::C), "[[2]]");
    assert_eq!(Tone::C.to_notation(FingerTone::B), "#1");
    assert_eq!(Tone::HD.to_notation(FingerTone::G), "5");
    assert_eq!(Tone::HSD.to_notation(FingerTone::SG), "5");
    assert_eq!(Tone::HHD.to_notation(FingerTone::B), "[[#2]]");
}

#[test]
fn test_notation_to_tone() {
    assert_eq!(Tone::notation_to_tone("1", FingerTone::C), Some(Tone::C));
    assert_eq!(Tone::notation_to_tone("1", FingerTone::D), Some(Tone::D));
    assert_eq!(Tone::notation_to_tone("[[#1]]", FingerTone::C), Some(Tone::HHSC));
    assert_eq!(Tone::notation_to_tone("#1", FingerTone::B), Some(Tone::C));
    assert_eq!(Tone::notation_to_tone("[[#2]]", FingerTone::B), Some(Tone::HHD));
    assert_eq!(Tone::notation_to_tone("[1]", FingerTone::G), Some(Tone::HG));
    assert_eq!(Tone::notation_to_tone("(5)", FingerTone::C), Some(Tone::LG));
    assert_eq!(Tone::notation_to_tone("(7)", FingerTone::C), Some(Tone::LB));
    assert_eq!(Tone::notation_to_tone("(#7)", FingerTone::C), None);
    assert_eq!(Tone::notation_to_tone("[[3]]", FingerTone::B), Some(Tone::HHSD));
}
