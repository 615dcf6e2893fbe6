use vstd::prelude::*;

pub mod parser;
pub mod round_trip;

verus! {

/// Number of entries in the notation alphabet, from `((5))` up to `[[3]]`.
pub const NOTATION_COUNT: usize = 46;

/// Position of plain `1` in the notation alphabet.
pub const TONE_C_START: usize = 17;

/// The octave band of a notation symbol, shown by the brackets around it.
#[derive(Debug, Clone, Copy, PartialEq, Eq, Structural)]
pub enum NotationType {
    /// `((n))`
    LLow,
    /// `(n)`
    Low,
    /// `n`
    Normal,
    /// `[n]`
    High,
    /// `[[n]]`
    HHigh,
}

impl NotationType {
    /// Octave number of the band, from 0 (`((n))`) to 4 (`[[n]]`).
    pub open spec fn band(self) -> int {
        match self {
            NotationType::LLow => 0,
            NotationType::Low => 1,
            NotationType::Normal => 2,
            NotationType::High => 3,
            NotationType::HHigh => 4,
        }
    }

    /// The band with octave number `b` (0 to 4).
    pub open spec fn from_band(b: int) -> NotationType {
        if b == 0 {
            NotationType::LLow
        } else if b == 1 {
            NotationType::Low
        } else if b == 2 {
            NotationType::Normal
        } else if b == 3 {
            NotationType::High
        } else {
            NotationType::HHigh
        }
    }

    /// The brackets written before the symbol.
    pub open spec fn opening(self) -> Seq<char> {
        match self {
            NotationType::LLow => seq!['(', '('],
            NotationType::Low => seq!['('],
            NotationType::Normal => seq![],
            NotationType::High => seq!['['],
            NotationType::HHigh => seq!['[', '['],
        }
    }

    /// The brackets written after the symbol.
    pub open spec fn closing(self) -> Seq<char> {
        match self {
            NotationType::LLow => seq![')', ')'],
            NotationType::Low => seq![')'],
            NotationType::Normal => seq![],
            NotationType::High => seq![']'],
            NotationType::HHigh => seq![']', ']'],
        }
    }
}

/// The character of a scale degree from 1 to 7.
pub open spec fn digit_char(d: int) -> char {
    if d == 1 {
        '1'
    } else if d == 2 {
        '2'
    } else if d == 3 {
        '3'
    } else if d == 4 {
        '4'
    } else if d == 5 {
        '5'
    } else if d == 6 {
        '6'
    } else {
        '7'
    }
}

/// The scale degree written by `c`, if `c` is one of `1` to `7`.
pub open spec fn digit_value(c: char) -> Option<u8> {
    if c == '1' {
        Some(1u8)
    } else if c == '2' {
        Some(2u8)
    } else if c == '3' {
        Some(3u8)
    } else if c == '4' {
        Some(4u8)
    } else if c == '5' {
        Some(5u8)
    } else if c == '6' {
        Some(6u8)
    } else if c == '7' {
        Some(7u8)
    } else {
        None
    }
}

/// The semitone within an octave of a degree, sharp or not; none for `#3` and `#7`.
pub open spec fn semitone(number: int, sharp: bool) -> Option<int> {
    if number == 1 {
        Some(if sharp { 1int } else { 0int })
    } else if number == 2 {
        Some(if sharp { 3int } else { 2int })
    } else if number == 3 {
        if sharp { None } else { Some(4int) }
    } else if number == 4 {
        Some(if sharp { 6int } else { 5int })
    } else if number == 5 {
        Some(if sharp { 8int } else { 7int })
    } else if number == 6 {
        Some(if sharp { 10int } else { 9int })
    } else if number == 7 {
        if sharp { None } else { Some(11int) }
    } else {
        None
    }
}

/// One notation symbol: a degree from 1 to 7, maybe sharp, in an octave band.
#[derive(Debug, Clone, Copy, PartialEq, Eq, Structural)]
pub struct Notation {
    pub kind: NotationType,
    pub number: u8,
    pub is_sharp: bool,
}

/// The symbol at position `p` (0 to 45) of the notation alphabet. The alphabet
/// runs by semitones from `((5))` to `[[3]]`: twelve semitones to each band.
pub open spec fn alphabet_entry(p: int) -> Notation {
    let q = p + 7;
    let st = q % 12;
    let (number, sharp) = if st == 0 {
        (1u8, false)
    } else if st == 1 {
        (1u8, true)
    } else if st == 2 {
        (2u8, false)
    } else if st == 3 {
        (2u8, true)
    } else if st == 4 {
        (3u8, false)
    } else if st == 5 {
        (4u8, false)
    } else if st == 6 {
        (4u8, true)
    } else if st == 7 {
        (5u8, false)
    } else if st == 8 {
        (5u8, true)
    } else if st == 9 {
        (6u8, false)
    } else if st == 10 {
        (6u8, true)
    } else {
        (7u8, false)
    };
    Notation { kind: NotationType::from_band(q / 12), number, is_sharp: sharp }
}

/// The position of `n` in the notation alphabet, if it is there.
pub open spec fn alphabet_position(n: Notation) -> Option<int> {
    match semitone(n.number as int, n.is_sharp) {
        Some(st) => {
            let p = 12 * n.kind.band() + st - 7;
            if 0 <= p < NOTATION_COUNT { Some(p) } else { None }
        },
        None => None,
    }
}

/// The position in the notation alphabet of the symbol written as `s`, if any.
pub open spec fn text_position(s: Seq<char>) -> Option<int> {
    if exists|p: int| 0 <= p < NOTATION_COUNT && #[trigger] alphabet_entry(p).text() == s {
        Some(choose|p: int| 0 <= p < NOTATION_COUNT && #[trigger] alphabet_entry(p).text() == s)
    } else {
        None
    }
}

/// Reads back a symbol from its text: the inverse of `Notation::text`.
pub open spec fn decode(s: Seq<char>) -> Notation {
    let kind = if s.len() >= 2 && s[0] == '(' && s[1] == '(' {
        NotationType::LLow
    } else if s.len() >= 1 && s[0] == '(' {
        NotationType::Low
    } else if s.len() >= 2 && s[0] == '[' && s[1] == '[' {
        NotationType::HHigh
    } else if s.len() >= 1 && s[0] == '[' {
        NotationType::High
    } else {
        NotationType::Normal
    };
    let k = kind.opening().len() as int;
    let sharp = s[k] == '#';
    let d = if sharp { s[k + 1] } else { s[k] };
    Notation { kind, number: digit_value(d).unwrap_or(0u8), is_sharp: sharp }
}

impl Notation {
    /// A degree from 1 to 7.
    pub open spec fn wf(self) -> bool {
        1 <= self.number <= 7
    }

    /// The canonical text: opening brackets, `#` if sharp, the digit, closing brackets.
    pub open spec fn text(self) -> Seq<char> {
        self.kind.opening() + (if self.is_sharp { seq!['#'] } else { seq![] }) + seq![
            digit_char(self.number as int),
        ] + self.kind.closing()
    }

    /// The canonical text of this symbol.
    pub fn to_string(&self) -> (r: String)
        requires
            self.wf(),
        ensures
            r@ == self.text(),
    {
        proof {
            reveal_strlit("((");
            reveal_strlit("(");
            reveal_strlit("[[");
            reveal_strlit("[");
            reveal_strlit("))");
            reveal_strlit(")");
            reveal_strlit("]]");
            reveal_strlit("]");
            reveal_strlit("#");
            reveal_strlit("");
            reveal_strlit("1");
            reveal_strlit("2");
            reveal_strlit("3");
            reveal_strlit("4");
            reveal_strlit("5");
            reveal_strlit("6");
            reveal_strlit("7");
        }
        let (open, close) = match self.kind {
            NotationType::LLow => ("((", "))"),
            NotationType::Low => ("(", ")"),
            NotationType::Normal => ("", ""),
            NotationType::High => ("[", "]"),
            NotationType::HHigh => ("[[", "]]"),
        };
        let digit = match self.number {
            1 => "1",
            2 => "2",
            3 => "3",
            4 => "4",
            5 => "5",
            6 => "6",
            _ => "7",
        };
        let mut r = String::from_str(open);
        if self.is_sharp {
            r.append("#");
        }
        r.append(digit);
        r.append(close);
        assert(r@ =~= self.text());
        r
    }

    /// The symbol at position `p` of the notation alphabet.
    pub fn from_alphabet(p: usize) -> (r: Notation)
        requires
            p < NOTATION_COUNT,
        ensures
            r == alphabet_entry(p as int),
            r.wf(),
    {
        let q = p + 7;
        let st = q % 12;
        let kind = match q / 12 {
            0 => NotationType::LLow,
            1 => NotationType::Low,
            2 => NotationType::Normal,
            3 => NotationType::High,
            _ => NotationType::HHigh,
        };
        let (number, is_sharp) = match st {
            0 => (1u8, false),
            1 => (1u8, true),
            2 => (2u8, false),
            3 => (2u8, true),
            4 => (3u8, false),
            5 => (4u8, false),
            6 => (4u8, true),
            7 => (5u8, false),
            8 => (5u8, true),
            9 => (6u8, false),
            10 => (6u8, true),
            _ => (7u8, false),
        };
        Notation { kind, number, is_sharp }
    }
}

/// Every position of the alphabet holds a symbol that is found at that position.
pub proof fn lemma_alphabet_entry_position(p: int)
    requires
        0 <= p < NOTATION_COUNT,
    ensures
        alphabet_entry(p).wf(),
        alphabet_position(alphabet_entry(p)) == Some(p),
{
}

/// A symbol is read back from its own text.
pub proof fn lemma_decode_text(n: Notation)
    requires
        n.wf(),
    ensures
        decode(n.text()) == n,
{
    let s = n.text();
    let k = n.kind.opening().len() as int;
    assert(s[k] == if n.is_sharp { '#' } else { digit_char(n.number as int) });
    if n.is_sharp {
        assert(s[k + 1] == digit_char(n.number as int));
    }
    if n.kind.opening().len() == 0 {
        assert(s[0] == '#' || s[0] == digit_char(n.number as int));
    } else if n.kind.opening().len() == 1 {
        assert(s[0] == n.kind.opening()[0]);
        assert(s[1] == '#' || s[1] == digit_char(n.number as int));
    } else {
        assert(s[0] == n.kind.opening()[0]);
        assert(s[1] == n.kind.opening()[1]);
    }
}

/// Two symbols with the same text are the same symbol.
pub proof fn lemma_text_injective(a: Notation, b: Notation)
    requires
        a.wf(),
        b.wf(),
        a.text() == b.text(),
    ensures
        a == b,
{
    lemma_decode_text(a);
    lemma_decode_text(b);
}

/// The text of the symbol at position `p` is found at position `p`, and only there.
pub proof fn lemma_text_position(p: int)
    requires
        0 <= p < NOTATION_COUNT,
    ensures
        text_position(alphabet_entry(p).text()) == Some(p),
{
    let s = alphabet_entry(p).text();
    assert(0 <= p < NOTATION_COUNT && alphabet_entry(p).text() == s);
    let q = choose|q: int| 0 <= q < NOTATION_COUNT && #[trigger] alphabet_entry(q).text() == s;
    lemma_alphabet_entry_position(p);
    lemma_alphabet_entry_position(q);
    lemma_text_injective(alphabet_entry(p), alphabet_entry(q));
}

/// Finds the position in the notation alphabet of the symbol written as `s`.
pub fn notation_position(s: &str) -> (r: Option<usize>)
    ensures
        r matches Some(p) ==> text_position(s@) == Some(p as int),
        r is None ==> text_position(s@) is None,
{
    let target = String::from_str(s);
    let mut p: usize = 0;
    while p < NOTATION_COUNT
        invariant
            p <= NOTATION_COUNT,
            target@ == s@,
            forall|q: int| 0 <= q < p ==> #[trigger] alphabet_entry(q).text() != s@,
        decreases NOTATION_COUNT - p,
    {
        let text = Notation::from_alphabet(p).to_string();
        if text == target {
            proof {
                lemma_text_position(p as int);
            }
            return Some(p);
        }
        p = p + 1;
    }
    None
}

} // verus!
