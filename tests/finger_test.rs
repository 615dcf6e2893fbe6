use recorder::tone::Tone;

#[test]
fn test_fingering() {
    assert_eq!(Tone::C.to_finger().map(|f| f.to_string()), Some("●\n-\n●\n●\n●\n-\n●\n●\n●\n●\n".to_owned()));
    assert_eq!(Tone::SC.to_finger().map(|f| f.to_string()), Some("●\n-\n●\n●\n●\n-\n●\n●\n●\n◐\n".to_owned()));
    assert_eq!(Tone::D.to_finger().map(|f| f.to_string()), Some("●\n-\n●\n●\n●\n-\n●\n●\n●\n○\n".to_owned()));
    assert_eq!(Tone::SD.to_finger().map(|f| f.to_string()), Some("●\n-\n●\n●\n●\n-\n●\n●\n◐\n○\n".to_owned()));
    assert_eq!(Tone::E.to_finger().map(|f| f.to_string()), Some("●\n-\n●\n●\n●\n-\n●\n●\n○\n○\n".to_owned()));
    assert_eq!(Tone::F.to_finger().map(|f| f.to_string()), Some("●\n-\n●\n●\n●\n-\n●\n○\n●\n●\n".to_owned()));
    assert_eq!(Tone::SF.to_finger().map(|f| f.to_string()), Some("●\n-\n●\n●\n●\n-\n○\n●\n●\n○\n".to_owned()));
    assert_eq!(Tone::G.to_finger().map(|f| f.to_string()), Some("●\n-\n●\n●\n●\n-\n○\n○\n○\n○\n".to_owned()));
    assert_eq!(Tone::SG.to_finger().map(|f| f.to_string()), Some("●\n-\n●\n●\n○\n-\n●\n●\n◐\n○\n".to_owned()));
    assert_eq!(Tone::A.to_finger().map(|f| f.to_string()), Some("●\n-\n●\n●\n○\n-\n○\n○\n○\n○\n".to_owned()));
    assert_eq!(Tone::B.to_finger().map(|f| f.to_string()), Some("●\n-\n●\n○\n○\n-\n○\n○\n○\n○\n".to_owned()));
    assert_eq!(Tone::HC.to_finger().map(|f| f.to_string()), Some("●\n-\n○\n●\n○\n-\n○\n○\n○\n○\n".to_owned()));
    assert_eq!(Tone::HSC.to_finger().map(|f| f.to_string()), Some("○\n-\n●\n●\n○\n-\n○\n○\n○\n○\n".to_owned()));
    assert_eq!(Tone::HD.to_finger().map(|f| f.to_string()), Some("○\n-\n○\n●\n○\n-\n○\n○\n○\n○\n".to_owned()));
    assert_eq!(Tone::HSD.to_finger().map(|f| f.to_string()), Some("○\n-\n○\n●\n●\n-\n●\n●\n●\n○\n".to_owned()));
    assert_eq!(Tone::HE.to_finger().map(|f| f.to_string()), Some("◐\n-\n●\n●\n●\n-\n●\n●\n○\n○\n".to_owned()));
    assert_eq!(Tone::HF.to_finger().map(|f| f.to_string()), Some("◐\n-\n●\n●\n●\n-\n●\n○\n●\n○\n".to_owned()));
    assert_eq!(Tone::HSF.to_finger().map(|f| f.to_string()), Some("◐\n-\n●\n●\n●\n-\n○\n●\n○\n○\n".to_owned()));
    assert_eq!(Tone::HG.to_finger().map(|f| f.to_string()), Some("◐\n-\n●\n●\n●\n-\n○\n○\n○\n○\n".to_owned()));
    assert_eq!(Tone::HSG.to_finger().map(|f| f.to_string()), Some("◐\n-\n●\n●\n○\n-\n●\n○\n○\n○\n".to_owned()));
    assert_eq!(Tone::HA.to_finger().map(|f| f.to_string()), Some("◐\n-\n●\n●\n○\n-\n○\n○\n○\n○\n".to_owned()));
    assert_eq!(Tone::HSA.to_finger().map(|f| f.to_string()), Some("◐\n-\n●\n●\n○\n-\n●\n●\n●\n○\n".to_owned()));
    assert_eq!(Tone::HB.to_finger().map(|f| f.to_string()), Some("◐\n-\n●\n●\n○\n-\n●\n●\n○\n○\n".to_owned()));
    assert_eq!(Tone::HB.to_finger().map(|f| f.to_string()), Some("◐\n-\n●\n●\n○\n-\n●\n●\n○\n○\n".to_owned()));
    assert_eq!(Tone::HHC.to_finger().map(|f| f.to_string()), Some("◐\n-\n●\n○\n○\n-\n●\n●\n○\n○\n".to_owned()));
    assert_eq!(Tone::HHSC.to_finger().map(|f| f.to_string()), Some("◐\n-\n●\n◐\n●\n-\n●\n○\n●\n●\n".to_owned()));
    assert_eq!(Tone::HHD.to_finger().map(|f| f.to_string()), Some("◐\n-\n●\n○\n●\n-\n●\n○\n●\n◐\n".to_owned()));
}
