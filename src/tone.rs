use vstd::prelude::*;

use crate::finger::Hole::{Close as X, Half as H, Open as O};
use crate::finger::{Fingering, Hole};
use crate::notation::parser::{parse_text, ParseError, Parser, Token, TokenView};
use crate::notation::{
    alphabet_entry, lemma_text_position, notation_position, text_position, Notation,
    NOTATION_COUNT, TONE_C_START,
};

verus! {

/// A pitch on the scale of the instrument: five octaves of semitones, from the C two
/// octaves below middle C (`LLC`) up to `HHB`. `C` is the C of the middle octave; an
/// `S` marks a sharp, `L` or `H` an octave below or above.
#[derive(Debug, Clone, Copy, PartialEq, Eq, Structural)]
pub enum Tone {
    LLC,
    LLSC,
    LLD,
    LLSD,
    LLE,
    LLF,
    LLSF,
    LLG,
    LLSG,
    LLA,
    LLSA,
    LLB,
    LC,
    LSC,
    LD,
    LSD,
    LE,
    LF,
    LSF,
    LG,
    LSG,
    LA,
    LSA,
    LB,
    C,
    SC,
    D,
    SD,
    E,
    F,
    SF,
    G,
    SG,
    A,
    SA,
    B,
    HC,
    HSC,
    HD,
    HSD,
    HE,
    HF,
    HSF,
    HG,
    HSG,
    HA,
    HSA,
    HB,
    HHC,
    HHSC,
    HHD,
    HHSD,
    HHE,
    HHF,
    HHSF,
    HHG,
    HHSG,
    HHA,
    HHSA,
    HHB,
}

/// The number of tones on the scale.
pub const TONE_COUNT: usize = 60;

/// The tone at position `i` of the scale (1 to 60).
pub open spec fn tone_at(i: int) -> Option<Tone> {
    if i == 1 {
        Some(Tone::LLC)
    } else if i == 2 {
        Some(Tone::LLSC)
    } else if i == 3 {
        Some(Tone::LLD)
    } else if i == 4 {
        Some(Tone::LLSD)
    } else if i == 5 {
        Some(Tone::LLE)
    } else if i == 6 {
        Some(Tone::LLF)
    } else if i == 7 {
        Some(Tone::LLSF)
    } else if i == 8 {
        Some(Tone::LLG)
    } else if i == 9 {
        Some(Tone::LLSG)
    } else if i == 10 {
        Some(Tone::LLA)
    } else if i == 11 {
        Some(Tone::LLSA)
    } else if i == 12 {
        Some(Tone::LLB)
    } else if i == 13 {
        Some(Tone::LC)
    } else if i == 14 {
        Some(Tone::LSC)
    } else if i == 15 {
        Some(Tone::LD)
    } else if i == 16 {
        Some(Tone::LSD)
    } else if i == 17 {
        Some(Tone::LE)
    } else if i == 18 {
        Some(Tone::LF)
    } else if i == 19 {
        Some(Tone::LSF)
    } else if i == 20 {
        Some(Tone::LG)
    } else if i == 21 {
        Some(Tone::LSG)
    } else if i == 22 {
        Some(Tone::LA)
    } else if i == 23 {
        Some(Tone::LSA)
    } else if i == 24 {
        Some(Tone::LB)
    } else if i == 25 {
        Some(Tone::C)
    } else if i == 26 {
        Some(Tone::SC)
    } else if i == 27 {
        Some(Tone::D)
    } else if i == 28 {
        Some(Tone::SD)
    } else if i == 29 {
        Some(Tone::E)
    } else if i == 30 {
        Some(Tone::F)
    } else if i == 31 {
        Some(Tone::SF)
    } else if i == 32 {
        Some(Tone::G)
    } else if i == 33 {
        Some(Tone::SG)
    } else if i == 34 {
        Some(Tone::A)
    } else if i == 35 {
        Some(Tone::SA)
    } else if i == 36 {
        Some(Tone::B)
    } else if i == 37 {
        Some(Tone::HC)
    } else if i == 38 {
        Some(Tone::HSC)
    } else if i == 39 {
        Some(Tone::HD)
    } else if i == 40 {
        Some(Tone::HSD)
    } else if i == 41 {
        Some(Tone::HE)
    } else if i == 42 {
        Some(Tone::HF)
    } else if i == 43 {
        Some(Tone::HSF)
    } else if i == 44 {
        Some(Tone::HG)
    } else if i == 45 {
        Some(Tone::HSG)
    } else if i == 46 {
        Some(Tone::HA)
    } else if i == 47 {
        Some(Tone::HSA)
    } else if i == 48 {
        Some(Tone::HB)
    } else if i == 49 {
        Some(Tone::HHC)
    } else if i == 50 {
        Some(Tone::HHSC)
    } else if i == 51 {
        Some(Tone::HHD)
    } else if i == 52 {
        Some(Tone::HHSD)
    } else if i == 53 {
        Some(Tone::HHE)
    } else if i == 54 {
        Some(Tone::HHF)
    } else if i == 55 {
        Some(Tone::HHSF)
    } else if i == 56 {
        Some(Tone::HHG)
    } else if i == 57 {
        Some(Tone::HHSG)
    } else if i == 58 {
        Some(Tone::HHA)
    } else if i == 59 {
        Some(Tone::HHSA)
    } else if i == 60 {
        Some(Tone::HHB)
    } else {
        None
    }
}

impl Tone {
    /// The position of this tone on the scale, from 1 (`LLC`) to 60 (`HHB`).
    pub open spec fn index(self) -> int {
        match self {
            Tone::LLC => 1,
            Tone::LLSC => 2,
            Tone::LLD => 3,
            Tone::LLSD => 4,
            Tone::LLE => 5,
            Tone::LLF => 6,
            Tone::LLSF => 7,
            Tone::LLG => 8,
            Tone::LLSG => 9,
            Tone::LLA => 10,
            Tone::LLSA => 11,
            Tone::LLB => 12,
            Tone::LC => 13,
            Tone::LSC => 14,
            Tone::LD => 15,
            Tone::LSD => 16,
            Tone::LE => 17,
            Tone::LF => 18,
            Tone::LSF => 19,
            Tone::LG => 20,
            Tone::LSG => 21,
            Tone::LA => 22,
            Tone::LSA => 23,
            Tone::LB => 24,
            Tone::C => 25,
            Tone::SC => 26,
            Tone::D => 27,
            Tone::SD => 28,
            Tone::E => 29,
            Tone::F => 30,
            Tone::SF => 31,
            Tone::G => 32,
            Tone::SG => 33,
            Tone::A => 34,
            Tone::SA => 35,
            Tone::B => 36,
            Tone::HC => 37,
            Tone::HSC => 38,
            Tone::HD => 39,
            Tone::HSD => 40,
            Tone::HE => 41,
            Tone::HF => 42,
            Tone::HSF => 43,
            Tone::HG => 44,
            Tone::HSG => 45,
            Tone::HA => 46,
            Tone::HSA => 47,
            Tone::HB => 48,
            Tone::HHC => 49,
            Tone::HHSC => 50,
            Tone::HHD => 51,
            Tone::HHSD => 52,
            Tone::HHE => 53,
            Tone::HHF => 54,
            Tone::HHSF => 55,
            Tone::HHG => 56,
            Tone::HHSG => 57,
            Tone::HHA => 58,
            Tone::HHSA => 59,
            Tone::HHB => 60,
        }
    }

    /// The position of this tone on the scale.
    pub fn position(&self) -> (r: usize)
        ensures
            r == self.index(),
    {
        match self {
            Tone::LLC => 1,
            Tone::LLSC => 2,
            Tone::LLD => 3,
            Tone::LLSD => 4,
            Tone::LLE => 5,
            Tone::LLF => 6,
            Tone::LLSF => 7,
            Tone::LLG => 8,
            Tone::LLSG => 9,
            Tone::LLA => 10,
            Tone::LLSA => 11,
            Tone::LLB => 12,
            Tone::LC => 13,
            Tone::LSC => 14,
            Tone::LD => 15,
            Tone::LSD => 16,
            Tone::LE => 17,
            Tone::LF => 18,
            Tone::LSF => 19,
            Tone::LG => 20,
            Tone::LSG => 21,
            Tone::LA => 22,
            Tone::LSA => 23,
            Tone::LB => 24,
            Tone::C => 25,
            Tone::SC => 26,
            Tone::D => 27,
            Tone::SD => 28,
            Tone::E => 29,
            Tone::F => 30,
            Tone::SF => 31,
            Tone::G => 32,
            Tone::SG => 33,
            Tone::A => 34,
            Tone::SA => 35,
            Tone::B => 36,
            Tone::HC => 37,
            Tone::HSC => 38,
            Tone::HD => 39,
            Tone::HSD => 40,
            Tone::HE => 41,
            Tone::HF => 42,
            Tone::HSF => 43,
            Tone::HG => 44,
            Tone::HSG => 45,
            Tone::HA => 46,
            Tone::HSA => 47,
            Tone::HB => 48,
            Tone::HHC => 49,
            Tone::HHSC => 50,
            Tone::HHD => 51,
            Tone::HHSD => 52,
            Tone::HHE => 53,
            Tone::HHF => 54,
            Tone::HHSF => 55,
            Tone::HHG => 56,
            Tone::HHSG => 57,
            Tone::HHA => 58,
            Tone::HHSA => 59,
            Tone::HHB => 60,
        }
    }

    /// The tone at position `i` of the scale, if there is one.
    pub fn from_position(i: usize) -> (r: Option<Tone>)
        ensures
            r == tone_at(i as int),
    {
        match i {
            1 => Some(Tone::LLC),
            2 => Some(Tone::LLSC),
            3 => Some(Tone::LLD),
            4 => Some(Tone::LLSD),
            5 => Some(Tone::LLE),
            6 => Some(Tone::LLF),
            7 => Some(Tone::LLSF),
            8 => Some(Tone::LLG),
            9 => Some(Tone::LLSG),
            10 => Some(Tone::LLA),
            11 => Some(Tone::LLSA),
            12 => Some(Tone::LLB),
            13 => Some(Tone::LC),
            14 => Some(Tone::LSC),
            15 => Some(Tone::LD),
            16 => Some(Tone::LSD),
            17 => Some(Tone::LE),
            18 => Some(Tone::LF),
            19 => Some(Tone::LSF),
            20 => Some(Tone::LG),
            21 => Some(Tone::LSG),
            22 => Some(Tone::LA),
            23 => Some(Tone::LSA),
            24 => Some(Tone::LB),
            25 => Some(Tone::C),
            26 => Some(Tone::SC),
            27 => Some(Tone::D),
            28 => Some(Tone::SD),
            29 => Some(Tone::E),
            30 => Some(Tone::F),
            31 => Some(Tone::SF),
            32 => Some(Tone::G),
            33 => Some(Tone::SG),
            34 => Some(Tone::A),
            35 => Some(Tone::SA),
            36 => Some(Tone::B),
            37 => Some(Tone::HC),
            38 => Some(Tone::HSC),
            39 => Some(Tone::HD),
            40 => Some(Tone::HSD),
            41 => Some(Tone::HE),
            42 => Some(Tone::HF),
            43 => Some(Tone::HSF),
            44 => Some(Tone::HG),
            45 => Some(Tone::HSG),
            46 => Some(Tone::HA),
            47 => Some(Tone::HSA),
            48 => Some(Tone::HB),
            49 => Some(Tone::HHC),
            50 => Some(Tone::HHSC),
            51 => Some(Tone::HHD),
            52 => Some(Tone::HHSD),
            53 => Some(Tone::HHE),
            54 => Some(Tone::HHF),
            55 => Some(Tone::HHSF),
            56 => Some(Tone::HHG),
            57 => Some(Tone::HHSG),
            58 => Some(Tone::HHA),
            59 => Some(Tone::HHSA),
            60 => Some(Tone::HHB),
            _ => None,
        }
    }

    /// The fingering of this tone on a recorder with baroque fingering, if the
    /// instrument can play it: from `C` up to `HHD`.
    pub open spec fn fingering(self) -> Option<Fingering> {
        match self {
            Tone::C => Some(fingering(X, X, X, X, X, X, X, X)),
            Tone::SC => Some(fingering(X, X, X, X, X, X, X, H)),
            Tone::D => Some(fingering(X, X, X, X, X, X, X, O)),
            Tone::SD => Some(fingering(X, X, X, X, X, X, H, O)),
            Tone::E => Some(fingering(X, X, X, X, X, X, O, O)),
            Tone::F => Some(fingering(X, X, X, X, X, O, X, X)),
            Tone::SF => Some(fingering(X, X, X, X, O, X, X, O)),
            Tone::G => Some(fingering(X, X, X, X, O, O, O, O)),
            Tone::SG => Some(fingering(X, X, X, O, X, X, H, O)),
            Tone::A => Some(fingering(X, X, X, O, O, O, O, O)),
            Tone::SA => Some(fingering(X, X, O, X, X, O, O, O)),
            Tone::B => Some(fingering(X, X, O, O, O, O, O, O)),
            Tone::HC => Some(fingering(X, O, X, O, O, O, O, O)),
            Tone::HSC => Some(fingering(O, X, X, O, O, O, O, O)),
            Tone::HD => Some(fingering(O, O, X, O, O, O, O, O)),
            Tone::HSD => Some(fingering(O, O, X, X, X, X, X, O)),
            Tone::HE => Some(fingering(H, X, X, X, X, X, O, O)),
            Tone::HF => Some(fingering(H, X, X, X, X, O, X, O)),
            Tone::HSF => Some(fingering(H, X, X, X, O, X, O, O)),
            Tone::HG => Some(fingering(H, X, X, X, O, O, O, O)),
            Tone::HSG => Some(fingering(H, X, X, O, X, O, O, O)),
            Tone::HA => Some(fingering(H, X, X, O, O, O, O, O)),
            Tone::HSA => Some(fingering(H, X, X, O, X, X, X, O)),
            Tone::HB => Some(fingering(H, X, X, O, X, X, O, O)),
            Tone::HHC => Some(fingering(H, X, O, O, X, X, O, O)),
            Tone::HHSC => Some(fingering(H, X, H, X, X, O, X, X)),
            Tone::HHD => Some(fingering(H, X, O, X, X, O, X, H)),
            _ => None,
        }
    }

    /// The fingering of this tone (see `fingering`).
    pub fn to_finger(self) -> (r: Option<Fingering>)
        ensures
            r == self.fingering(),
    {
        match self {
            Tone::C => Some(Fingering::new(X, X, X, X, X, X, X, X)),
            Tone::SC => Some(Fingering::new(X, X, X, X, X, X, X, H)),
            Tone::D => Some(Fingering::new(X, X, X, X, X, X, X, O)),
            Tone::SD => Some(Fingering::new(X, X, X, X, X, X, H, O)),
            Tone::E => Some(Fingering::new(X, X, X, X, X, X, O, O)),
            Tone::F => Some(Fingering::new(X, X, X, X, X, O, X, X)),
            Tone::SF => Some(Fingering::new(X, X, X, X, O, X, X, O)),
            Tone::G => Some(Fingering::new(X, X, X, X, O, O, O, O)),
            Tone::SG => Some(Fingering::new(X, X, X, O, X, X, H, O)),
            Tone::A => Some(Fingering::new(X, X, X, O, O, O, O, O)),
            Tone::SA => Some(Fingering::new(X, X, O, X, X, O, O, O)),
            Tone::B => Some(Fingering::new(X, X, O, O, O, O, O, O)),
            Tone::HC => Some(Fingering::new(X, O, X, O, O, O, O, O)),
            Tone::HSC => Some(Fingering::new(O, X, X, O, O, O, O, O)),
            Tone::HD => Some(Fingering::new(O, O, X, O, O, O, O, O)),
            Tone::HSD => Some(Fingering::new(O, O, X, X, X, X, X, O)),
            Tone::HE => Some(Fingering::new(H, X, X, X, X, X, O, O)),
            Tone::HF => Some(Fingering::new(H, X, X, X, X, O, X, O)),
            Tone::HSF => Some(Fingering::new(H, X, X, X, O, X, O, O)),
            Tone::HG => Some(Fingering::new(H, X, X, X, O, O, O, O)),
            Tone::HSG => Some(Fingering::new(H, X, X, O, X, O, O, O)),
            Tone::HA => Some(Fingering::new(H, X, X, O, O, O, O, O)),
            Tone::HSA => Some(Fingering::new(H, X, X, O, X, X, X, O)),
            Tone::HB => Some(Fingering::new(H, X, X, O, X, X, O, O)),
            Tone::HHC => Some(Fingering::new(H, X, O, O, X, X, O, O)),
            Tone::HHSC => Some(Fingering::new(H, X, H, X, X, O, X, X)),
            Tone::HHD => Some(Fingering::new(H, X, O, X, X, O, X, H)),
            _ => None,
        }
    }
}

/// The fingering with the given holes, from the left thumb to the right little finger.
pub open spec fn fingering(
    left_0: Hole,
    left_1: Hole,
    left_2: Hole,
    left_3: Hole,
    right_4: Hole,
    right_5: Hole,
    right_6: Hole,
    right_7: Hole,
) -> Fingering {
    Fingering { left_0, left_1, left_2, left_3, right_4, right_5, right_6, right_7 }
}

/// Each tone is at its own position of the scale.
pub proof fn lemma_tone_at_index(t: Tone)
    ensures
        1 <= t.index() <= TONE_COUNT,
        tone_at(t.index()) == Some(t),
{
}

/// The key in which notation is read: the tone written as `1`. The keys are in order
/// of the offset that each adds to a position, from `SA` (1) to `B` (12).
#[derive(Debug, Clone, Copy, PartialEq, Eq, Structural)]
pub enum FingerTone {
    SA,
    A,
    SG,
    G,
    SF,
    F,
    E,
    SD,
    D,
    SC,
    C,
    B,
}

impl FingerTone {
    /// The offset of this key.
    pub open spec fn offset(self) -> int {
        match self {
            FingerTone::SA => 1,
            FingerTone::A => 2,
            FingerTone::SG => 3,
            FingerTone::G => 4,
            FingerTone::SF => 5,
            FingerTone::F => 6,
            FingerTone::E => 7,
            FingerTone::SD => 8,
            FingerTone::D => 9,
            FingerTone::SC => 10,
            FingerTone::C => 11,
            FingerTone::B => 12,
        }
    }

    /// The offset of this key.
    pub fn offset_value(&self) -> (r: usize)
        ensures
            r == self.offset(),
    {
        match self {
            FingerTone::SA => 1,
            FingerTone::A => 2,
            FingerTone::SG => 3,
            FingerTone::G => 4,
            FingerTone::SF => 5,
            FingerTone::F => 6,
            FingerTone::E => 7,
            FingerTone::SD => 8,
            FingerTone::D => 9,
            FingerTone::SC => 10,
            FingerTone::C => 11,
            FingerTone::B => 12,
        }
    }

    /// The name of this key: a lower-case letter, after `#` for a sharp.
    pub open spec fn code(self) -> Seq<char> {
        match self {
            FingerTone::SA => seq!['#', 'a'],
            FingerTone::A => seq!['a'],
            FingerTone::SG => seq!['#', 'g'],
            FingerTone::G => seq!['g'],
            FingerTone::SF => seq!['#', 'f'],
            FingerTone::F => seq!['f'],
            FingerTone::E => seq!['e'],
            FingerTone::SD => seq!['#', 'd'],
            FingerTone::D => seq!['d'],
            FingerTone::SC => seq!['#', 'c'],
            FingerTone::C => seq!['c'],
            FingerTone::B => seq!['b'],
        }
    }

    /// The key named `s`, if there is one.
    pub fn from_str(s: &str) -> (r: Option<Self>)
        ensures
            r matches Some(k) ==> k.code() == s@,
            r is None ==> forall|k: FingerTone| #[trigger] k.code() != s@,
    {
        proof {
            reveal_strlit("#a");
            reveal_strlit("a");
            reveal_strlit("#g");
            reveal_strlit("g");
            reveal_strlit("#f");
            reveal_strlit("f");
            reveal_strlit("e");
            reveal_strlit("#d");
            reveal_strlit("d");
            reveal_strlit("#c");
            reveal_strlit("c");
            reveal_strlit("b");
        }
        let t = String::from_str(s);
        if t == String::from_str("#a") {
            Some(FingerTone::SA)
        } else if t == String::from_str("a") {
            Some(FingerTone::A)
        } else if t == String::from_str("#g") {
            Some(FingerTone::SG)
        } else if t == String::from_str("g") {
            Some(FingerTone::G)
        } else if t == String::from_str("#f") {
            Some(FingerTone::SF)
        } else if t == String::from_str("f") {
            Some(FingerTone::F)
        } else if t == String::from_str("e") {
            Some(FingerTone::E)
        } else if t == String::from_str("#d") {
            Some(FingerTone::SD)
        } else if t == String::from_str("d") {
            Some(FingerTone::D)
        } else if t == String::from_str("#c") {
            Some(FingerTone::SC)
        } else if t == String::from_str("c") {
            Some(FingerTone::C)
        } else if t == String::from_str("b") {
            Some(FingerTone::B)
        } else {
            assert forall|k: FingerTone| #[trigger] k.code() != s@ by {
                match k {
                    FingerTone::SA => assert(seq!['#', 'a'] =~= "#a"@),
                    FingerTone::A => assert(seq!['a'] =~= "a"@),
                    FingerTone::SG => assert(seq!['#', 'g'] =~= "#g"@),
                    FingerTone::G => assert(seq!['g'] =~= "g"@),
                    FingerTone::SF => assert(seq!['#', 'f'] =~= "#f"@),
                    FingerTone::F => assert(seq!['f'] =~= "f"@),
                    FingerTone::E => assert(seq!['e'] =~= "e"@),
                    FingerTone::SD => assert(seq!['#', 'd'] =~= "#d"@),
                    FingerTone::D => assert(seq!['d'] =~= "d"@),
                    FingerTone::SC => assert(seq!['#', 'c'] =~= "#c"@),
                    FingerTone::C => assert(seq!['c'] =~= "c"@),
                    FingerTone::B => assert(seq!['b'] =~= "b"@),
                }
            }
            None
        }
    }
}

impl Tone {
    /// Where this tone stands in the notation alphabet when read in key `key`.
    pub open spec fn notation_index(self, key: FingerTone) -> int {
        self.index() + key.offset() + TONE_C_START - FingerTone::C.offset() - Tone::C.index()
    }

    /// Whether this tone can be written in key `key`: its place in the alphabet exists.
    pub open spec fn has_notation(self, key: FingerTone) -> bool {
        0 <= self.notation_index(key) < NOTATION_COUNT
    }

    /// The symbol of this tone in key `key`.
    pub open spec fn notation(self, key: FingerTone) -> Notation {
        alphabet_entry(self.notation_index(key))
    }

    /// The text of this tone in key `key`, e.g. `(#6)` for `C` in the key of D.
    pub fn to_notation(self, finger_tone: FingerTone) -> (r: String)
        requires
            self.has_notation(finger_tone),
        ensures
            r@ == self.notation(finger_tone).text(),
    {
        let index = self.position() + finger_tone.offset_value() + TONE_C_START
            - FingerTone::C.offset_value() - Tone::C.position();
        Notation::from_alphabet(index).to_string()
    }

    /// The text of this tone in key `finger_tone`, or none where the alphabet has no
    /// symbol for it.
    pub fn checked_notation(self, finger_tone: FingerTone) -> (r: Option<String>)
        ensures
            r is Some <==> self.has_notation(finger_tone),
            r matches Some(s) ==> s@ == self.notation(finger_tone).text(),
    {
        let shifted = self.position() + finger_tone.offset_value() + TONE_C_START;
        let base = FingerTone::C.offset_value() + Tone::C.position();
        if shifted < base || shifted - base >= NOTATION_COUNT {
            None
        } else {
            Some(self.to_notation(finger_tone))
        }
    }

    /// The tone written as `notation` in key `finger_tone`, if the text is a symbol of
    /// the alphabet and the tone is on the scale.
    pub fn notation_to_tone(notation: &str, finger_tone: FingerTone) -> (r: Option<Tone>)
        ensures
            r == tone_of_text(notation@, finger_tone),
    {
        match notation_position(notation) {
            Some(index) => {
                let shifted = index + FingerTone::C.offset_value() + Tone::C.position();
                let offset = finger_tone.offset_value();
                if shifted < offset + TONE_C_START {
                    None
                } else {
                    Tone::from_position(shifted - offset - TONE_C_START)
                }
            },
            None => None,
        }
    }
}

/// The tone written as `s` in key `key`: the inverse of `Tone::notation`.
pub open spec fn tone_of_text(s: Seq<char>, key: FingerTone) -> Option<Tone> {
    match text_position(s) {
        Some(p) => tone_at(
            p + FingerTone::C.offset() + Tone::C.index() - key.offset() - TONE_C_START,
        ),
        None => None,
    }
}

/// Reading back the text of a tone in a key gives the same tone, for every tone and
/// key in which the tone can be written.
pub proof fn lemma_notation_round_trip(tone: Tone, key: FingerTone)
    requires
        tone.has_notation(key),
    ensures
        tone_of_text(tone.notation(key).text(), key) == Some(tone),
{
    lemma_text_position(tone.notation_index(key));
    lemma_tone_at_index(tone);
}

/// The text of a tone in a key is a symbol of the alphabet, found at the tone's place,
/// and it reads back as the same tone in that key.
pub proof fn lemma_notation_in_alphabet(tone: Tone, key: FingerTone)
    requires
        tone.has_notation(key),
    ensures
        text_position(tone.notation(key).text()) == Some(tone.notation_index(key)),
        tone_of_text(tone.notation(key).text(), key) == Some(tone),
{
    lemma_text_position(tone.notation_index(key));
    lemma_notation_round_trip(tone, key);
}

/// An error of conversion or drawing.
#[derive(Debug, PartialEq)]
pub enum ConvertError {
    /// The text is not well-formed notation.
    Parse(ParseError),
    /// A symbol has no tone in the source key, no symbol in the target key, or no
    /// fingering.
    NotFound(String),
}

impl ConvertError {
    /// The message of this error.
    pub fn to_string(&self) -> (r: String)
        ensures
            r@ == match self {
                ConvertError::Parse(e) => e.0@,
                ConvertError::NotFound(m) => m@,
            },
    {
        match self {
            ConvertError::Parse(e) => e.to_string(),
            ConvertError::NotFound(m) => m.clone(),
        }
    }
}

/// Joins lines with a newline between each two.
pub open spec fn join_lines(ls: Seq<Seq<char>>) -> Seq<char>
    decreases ls.len(),
{
    if ls.len() == 0 {
        seq![]
    } else if ls.len() == 1 {
        ls[0]
    } else {
        join_lines(ls.drop_last()) + seq!['\n'] + ls.last()
    }
}

/// The texts of a sequence of strings.
pub open spec fn strings_view(v: Seq<String>) -> Seq<Seq<char>> {
    v.map_values(|s: String| s@)
}

/// The text of token `t` once converted from key `from` to key `to`: the symbol of the
/// same tone in the new key, a comment or a space as it is. None where the symbol has
/// no tone in `from`, or the tone no symbol in `to`.
pub open spec fn convert_token(t: TokenView, from: FingerTone, to: FingerTone) -> Option<Seq<char>> {
    match t {
        TokenView::Notation(n) => match tone_of_text(n.text(), from) {
            Some(tone) => if tone.has_notation(to) {
                Some(tone.notation(to).text())
            } else {
                None
            },
            None => None,
        },
        TokenView::Raw(s) => Some(s),
        TokenView::Whitespace => Some(seq![' ']),
    }
}

/// Whether every token of every line converts.
pub open spec fn text_converts(ls: Seq<Seq<TokenView>>, from: FingerTone, to: FingerTone) -> bool {
    forall|k: int, j: int|
        0 <= k < ls.len() && 0 <= j < ls[k].len() ==> #[trigger] convert_token(ls[k][j], from, to) is Some
}

/// The converted texts of the tokens of one line.
pub open spec fn converted_tokens(ts: Seq<TokenView>, from: FingerTone, to: FingerTone) -> Seq<Seq<char>> {
    Seq::new(ts.len(), |j: int| convert_token(ts[j], from, to)->0)
}

/// A converted line: its tokens' converted texts, one after the other.
pub open spec fn convert_line(ts: Seq<TokenView>, from: FingerTone, to: FingerTone) -> Seq<char> {
    converted_tokens(ts, from, to).flatten()
}

/// The converted lines, joined by newlines.
pub open spec fn converted_text(ls: Seq<Seq<TokenView>>, from: FingerTone, to: FingerTone) -> Seq<char> {
    join_lines(Seq::new(ls.len(), |k: int| convert_line(ls[k], from, to)))
}

fn not_found(msg: &str) -> (r: ConvertError)
    ensures
        r is NotFound,
{
    ConvertError::NotFound(String::from_str(msg))
}

fn space() -> (r: String)
    ensures
        r@ == seq![' '],
{
    proof {
        reveal_strlit(" ");
    }
    String::from_str(" ")
}

/// Joins the rows with a newline between each two.
fn join_rows(rows: &Vec<String>) -> (r: String)
    ensures
        r@ == join_lines(strings_view(rows@)),
{
    let mut r = String::new();
    let mut k: usize = 0;
    while k < rows.len()
        invariant
            k <= rows@.len(),
            r@ == join_lines(strings_view(rows@).take(k as int)),
        decreases rows@.len() - k,
    {
        let ghost prev = strings_view(rows@).take(k as int);
        let ghost next = strings_view(rows@).take(k + 1);
        assert(next.drop_last() =~= prev);
        if k > 0 {
            proof {
                reveal_strlit("\n");
            }
            r.append("\n");
        } else {
            assert(next.len() == 1);
        }
        r.append(rows[k].as_str());
        assert(r@ =~= join_lines(next));
        k = k + 1;
    }
    assert(strings_view(rows@).take(k as int) =~= strings_view(rows@));
    r
}

/// Rewrites notation text from key `from` to key `to`: each symbol becomes the symbol of
/// the same tone in the new key; spaces and comment lines stay as they are.
pub fn convert_tone(content: &str, from: FingerTone, to: FingerTone) -> (r: Result<String, ConvertError>)
    ensures
        parse_text(content@) is None <==> r matches Err(ConvertError::Parse(_)),
        parse_text(content@) matches Some(ls) ==> (r is Ok <==> text_converts(ls, from, to)),
        r matches Ok(out) ==> parse_text(content@) matches Some(ls) && out@ == converted_text(
            ls,
            from,
            to,
        ),
{
    let parser = match Parser::from_str(content) {
        Ok(p) => p,
        Err(e) => {
            return Err(ConvertError::Parse(e));
        },
    };
    let ghost ls = parser@;
    proof {
        crate::notation::parser::lemma_parse_text_wf(content@, ls);
    }
    let mut rows: Vec<String> = Vec::new();
    let mut k: usize = 0;
    while k < parser.inner.len()
        invariant
            parse_text(content@) == Some(ls),
            ls == parser@,
            ls.len() == parser.inner@.len(),
            forall|m: int, j: int| 0 <= m < ls.len() && 0 <= j < ls[m].len() ==> #[trigger] ls[m][j].wf(),
            k <= ls.len(),
            rows@.len() == k,
            forall|m: int, j: int|
                0 <= m < k && 0 <= j < ls[m].len() ==> #[trigger] convert_token(ls[m][j], from, to) is Some,
            forall|m: int| 0 <= m < k ==> #[trigger] rows@[m]@ == convert_line(ls[m], from, to),
        decreases ls.len() - k,
    {
        let line = &parser.inner[k];
        let ghost ts = ls[k as int];
        assert(ts =~= crate::notation::parser::tokens_view(line@));
        let ghost pieces = converted_tokens(ts, from, to);
        let mut text = String::new();
        let mut j: usize = 0;
        while j < line.len()
            invariant
                ts == crate::notation::parser::tokens_view(line@),
                ls == parser@,
                parse_text(content@) == Some(ls),
                k < ls.len(),
                ts == ls[k as int],
                forall|jj: int| 0 <= jj < ts.len() ==> #[trigger] ts[jj].wf(),
                pieces == converted_tokens(ts, from, to),
                j <= ts.len(),
                forall|jj: int| 0 <= jj < j ==> #[trigger] convert_token(ts[jj], from, to) is Some,
                text@ == pieces.take(j as int).flatten(),
            decreases ts.len() - j,
        {
            assert(line@[j as int]@ == ts[j as int]);
            let piece = match &line[j] {
                Token::Notation(n) => {
                    assert(ts[j as int] == TokenView::Notation(*n));
                    assert(ts[j as int].wf());
                    let written = n.to_string();
                    match Tone::notation_to_tone(written.as_str(), from) {
                        Some(tone) => match tone.checked_notation(to) {
                            Some(x) => x,
                            None => {
                                assert(!text_converts(ls, from, to)) by {
                                    assert(convert_token(ls[k as int][j as int], from, to) is None);
                                }
                                return Err(not_found("no symbol for this tone in the target key"));
                            },
                        },
                        None => {
                            assert(!text_converts(ls, from, to)) by {
                                assert(convert_token(ls[k as int][j as int], from, to) is None);
                            }
                            return Err(not_found("unknown symbol"));
                        },
                    }
                },
                Token::Raw(s) => s.clone(),
                Token::Whitespace => space(),
            };
            assert(piece@ == pieces[j as int]);
            text.append(piece.as_str());
            proof {
                assert(pieces.take(j + 1) =~= pieces.take(j as int).push(pieces[j as int]));
                pieces.take(j as int).lemma_flatten_push(pieces[j as int]);
            }
            j = j + 1;
        }
        assert(pieces.take(j as int) =~= pieces);
        rows.push(text);
        k = k + 1;
    }
    assert(strings_view(rows@) =~= Seq::new(ls.len(), |m: int| convert_line(ls[m], from, to)));
    Ok(join_rows(&rows))
}

/// The number of rows drawn for each token.
pub const DIAGRAM_ROWS: usize = 9;

/// The blank column drawn for a space.
pub open spec fn blank_cell() -> Seq<char> {
    seq![' ', ' ', ' ', ' ', ' ']
}

/// The cells drawn for token `t` read in key `key`, one for each row: the diagram of
/// a symbol's fingering, a blank column for a space, a comment repeated. None where the
/// symbol has no tone, or the tone no fingering.
pub open spec fn token_cells(t: TokenView, key: FingerTone) -> Option<Seq<Seq<char>>> {
    match t {
        TokenView::Notation(n) => match tone_of_text(n.text(), key) {
            Some(tone) => match tone.fingering() {
                Some(f) => Some(f.diagram_rows()),
                None => None,
            },
            None => None,
        },
        TokenView::Raw(s) => Some(Seq::new(DIAGRAM_ROWS as nat, |r: int| s)),
        TokenView::Whitespace => Some(Seq::new(DIAGRAM_ROWS as nat, |r: int| blank_cell())),
    }
}

/// Whether every token of every line can be drawn.
pub open spec fn text_draws(ls: Seq<Seq<TokenView>>, key: FingerTone) -> bool {
    forall|k: int, j: int|
        0 <= k < ls.len() && 0 <= j < ls[k].len() ==> #[trigger] token_cells(ls[k][j], key) is Some
}

/// The cells of row `r` of a line, one for each token.
pub open spec fn row_cells(ts: Seq<TokenView>, key: FingerTone, r: int) -> Seq<Seq<char>> {
    Seq::new(ts.len(), |j: int| token_cells(ts[j], key)->0[r])
}

/// The texts of the tokens of a line.
pub open spec fn token_texts(ts: Seq<TokenView>) -> Seq<Seq<char>> {
    Seq::new(ts.len(), |j: int| ts[j].text())
}

/// The drawing of one line: its rows of cells, then the line itself, then a blank row.
pub open spec fn line_drawing(ts: Seq<TokenView>, key: FingerTone) -> Seq<Seq<char>> {
    Seq::new(DIAGRAM_ROWS as nat, |r: int| row_cells(ts, key, r).flatten()) + seq![
        token_texts(ts).flatten(),
        seq![],
    ]
}

/// The rows drawn for a text: the drawing of each line that has tokens, in order.
pub open spec fn drawing_rows(ls: Seq<Seq<TokenView>>, key: FingerTone) -> Seq<Seq<char>>
    decreases ls.len(),
{
    if ls.len() == 0 {
        seq![]
    } else if ls.last().len() == 0 {
        drawing_rows(ls.drop_last(), key)
    } else {
        drawing_rows(ls.drop_last(), key) + line_drawing(ls.last(), key)
    }
}

fn blank() -> (r: String)
    ensures
        r@ == blank_cell(),
{
    proof {
        reveal_strlit("     ");
    }
    String::from_str("     ")
}

/// `DIAGRAM_ROWS` copies of `s`.
fn repeated(s: &String) -> (r: Vec<String>)
    ensures
        r@.len() == DIAGRAM_ROWS,
        forall|i: int| 0 <= i < DIAGRAM_ROWS ==> #[trigger] r@[i]@ == s@,
{
    let mut r: Vec<String> = Vec::new();
    let mut i: usize = 0;
    while i < DIAGRAM_ROWS
        invariant
            i <= DIAGRAM_ROWS,
            r@.len() == i,
            forall|m: int| 0 <= m < i ==> #[trigger] r@[m]@ == s@,
        decreases DIAGRAM_ROWS - i,
    {
        r.push(s.clone());
        i = i + 1;
    }
    r
}

/// The cells drawn for one token (see `token_cells`).
fn draw_token(token: &Token, finger_tone: FingerTone) -> (r: Result<Vec<String>, ConvertError>)
    requires
        token@.wf(),
    ensures
        r is Ok <==> token_cells(token@, finger_tone) is Some,
        r matches Ok(cells) ==> cells@.len() == DIAGRAM_ROWS && forall|m: int|
            0 <= m < DIAGRAM_ROWS ==> #[trigger] cells@[m]@ == token_cells(token@, finger_tone)->0[m],
        r matches Err(e) ==> e is NotFound,
{
    match token {
        Token::Notation(n) => {
            let text = n.to_string();
            match Tone::notation_to_tone(text.as_str(), finger_tone) {
                Some(tone) => match tone.to_finger() {
                    Some(f) => Ok(f.diagram()),
                    None => Err(not_found("the instrument cannot play this symbol in this key")),
                },
                None => Err(not_found("unknown symbol")),
            }
        },
        Token::Raw(s) => Ok(repeated(s)),
        Token::Whitespace => Ok(repeated(&blank())),
    }
}

/// Adds each cell to the end of its row.
fn append_cells(rows: &mut Vec<String>, cells: &Vec<String>)
    requires
        old(rows)@.len() == DIAGRAM_ROWS,
        cells@.len() == DIAGRAM_ROWS,
    ensures
        final(rows)@.len() == DIAGRAM_ROWS,
        forall|m: int| 0 <= m < DIAGRAM_ROWS ==> #[trigger] final(rows)@[m]@ == old(rows)@[m]@ + cells@[m]@,
{
    let ghost old_rows = rows@;
    let mut r: usize = 0;
    while r < DIAGRAM_ROWS
        invariant
            r <= DIAGRAM_ROWS,
            rows@.len() == DIAGRAM_ROWS,
            old_rows.len() == DIAGRAM_ROWS,
            cells@.len() == DIAGRAM_ROWS,
            forall|m: int| r <= m < DIAGRAM_ROWS ==> #[trigger] rows@[m] == old_rows[m],
            forall|m: int| 0 <= m < r ==> #[trigger] rows@[m]@ == old_rows[m]@ + cells@[m]@,
        decreases DIAGRAM_ROWS - r,
    {
        rows[r].append(cells[r].as_str());
        r = r + 1;
    }
}

/// Draws the fingering of each symbol of notation text read in key `finger_tone`: for
/// each line with tokens, the rows of its cells, the line itself and a blank row.
pub fn visualize_tone(content: &str, finger_tone: FingerTone) -> (r: Result<String, ConvertError>)
    ensures
        parse_text(content@) is None <==> r matches Err(ConvertError::Parse(_)),
        parse_text(content@) matches Some(ls) ==> (r is Ok <==> text_draws(ls, finger_tone)),
        r matches Ok(out) ==> parse_text(content@) matches Some(ls) && out@ == join_lines(
            drawing_rows(ls, finger_tone),
        ),
{
    let parser = match Parser::from_str(content) {
        Ok(p) => p,
        Err(e) => {
            return Err(ConvertError::Parse(e));
        },
    };
    let ghost ls = parser@;
    let ghost key = finger_tone;
    proof {
        crate::notation::parser::lemma_parse_text_wf(content@, ls);
    }
    let mut out: Vec<String> = Vec::new();
    let mut k: usize = 0;
    while k < parser.inner.len()
        invariant
            parse_text(content@) == Some(ls),
            ls == parser@,
            ls.len() == parser.inner@.len(),
            forall|m: int, j: int| 0 <= m < ls.len() && 0 <= j < ls[m].len() ==> #[trigger] ls[m][j].wf(),
            k <= ls.len(),
            forall|m: int, j: int|
                0 <= m < k && 0 <= j < ls[m].len() ==> #[trigger] token_cells(ls[m][j], key) is Some,
            strings_view(out@) == drawing_rows(ls.take(k as int), key),
            key == finger_tone,
        decreases ls.len() - k,
    {
        let line = &parser.inner[k];
        let ghost ts = ls[k as int];
        assert(ts =~= crate::notation::parser::tokens_view(line@));
        assert(ls.take(k + 1).drop_last() =~= ls.take(k as int));
        assert(ls.take(k + 1).last() == ts);
        if line.len() > 0 {
            let mut rows = repeated(&String::new());
            let mut written = String::new();
            let mut j: usize = 0;
            while j < line.len()
                invariant
                    ts == crate::notation::parser::tokens_view(line@),
                    ls == parser@,
                    key == finger_tone,
                    parse_text(content@) == Some(ls),
                    k < ls.len(),
                    ts == ls[k as int],
                    forall|jj: int| 0 <= jj < ts.len() ==> #[trigger] ts[jj].wf(),
                    j <= ts.len(),
                    forall|jj: int| 0 <= jj < j ==> #[trigger] token_cells(ts[jj], key) is Some,
                    rows@.len() == DIAGRAM_ROWS,
                    forall|r: int|
                        0 <= r < DIAGRAM_ROWS ==> #[trigger] rows@[r]@ == row_cells(ts, key, r).take(
                            j as int,
                        ).flatten(),
                    written@ == token_texts(ts).take(j as int).flatten(),
                decreases ts.len() - j,
            {
                assert(line@[j as int]@ == ts[j as int]);
                assert(ts[j as int].wf());
                let cells = match draw_token(&line[j], finger_tone) {
                    Ok(cells) => cells,
                    Err(e) => {
                        assert(!text_draws(ls, key)) by {
                            assert(token_cells(ls[k as int][j as int], key) is None);
                        }
                        return Err(e);
                    },
                };
                let ghost c = token_cells(ts[j as int], key)->0;
                assert(c.len() == DIAGRAM_ROWS);
                assert(forall|r: int| 0 <= r < DIAGRAM_ROWS ==> #[trigger] cells@[r]@ == c[r]);
                append_cells(&mut rows, &cells);
                let piece = line[j].to_string();
                written.append(piece.as_str());
                proof {
                    let tx = token_texts(ts);
                    assert(tx.take(j + 1) =~= tx.take(j as int).push(tx[j as int]));
                    tx.take(j as int).lemma_flatten_push(tx[j as int]);
                    assert forall|m: int| 0 <= m < DIAGRAM_ROWS implies #[trigger] rows@[m]@
                        == row_cells(ts, key, m).take(j + 1).flatten() by {
                        let rc = row_cells(ts, key, m);
                        assert(rc.take(j + 1) =~= rc.take(j as int).push(rc[j as int]));
                        rc.take(j as int).lemma_flatten_push(rc[j as int]);
                    }
                }
                j = j + 1;
            }
            assert(token_texts(ts).take(j as int) =~= token_texts(ts));
            let ghost before = strings_view(out@);
            let mut r: usize = 0;
            while r < DIAGRAM_ROWS
                invariant
                    r <= DIAGRAM_ROWS,
                    rows@.len() == DIAGRAM_ROWS,
                    j == ts.len(),
                    forall|m: int|
                        0 <= m < DIAGRAM_ROWS ==> #[trigger] rows@[m]@ == row_cells(ts, key, m).take(
                            j as int,
                        ).flatten(),
                    strings_view(out@) == before + Seq::new(
                        r as nat,
                        |m: int| row_cells(ts, key, m).flatten(),
                    ),
                decreases DIAGRAM_ROWS - r,
            {
                assert(row_cells(ts, key, r as int).take(j as int) =~= row_cells(ts, key, r as int));
                let ghost prev_out = strings_view(out@);
                let row = rows[r].clone();
                assert(row@ == row_cells(ts, key, r as int).flatten());
                out.push(row);
                assert(strings_view(out@) =~= prev_out.push(row@));
                assert(strings_view(out@) =~= before + Seq::new(
                    (r + 1) as nat,
                    |m: int| row_cells(ts, key, m).flatten(),
                ));
                r = r + 1;
            }
            let ghost rows_out = strings_view(out@);
            let ghost w = written@;
            out.push(written);
            assert(strings_view(out@) =~= rows_out.push(w));
            out.push(String::new());
            assert(strings_view(out@) =~= rows_out.push(w).push(seq![]));
            assert(strings_view(out@) =~= before + line_drawing(ts, key));
        }
        k = k + 1;
    }
    assert(ls.take(k as int) =~= ls);
    Ok(join_rows(&out))
}

} // verus!
