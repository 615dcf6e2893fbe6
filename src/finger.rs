use vstd::prelude::*;

verus! {

/// The state of one finger hole.
#[derive(Debug, Clone, Copy, PartialEq, Eq, Structural)]
pub enum Hole {
    /// Fully open.
    Open,
    /// Half covered.
    Half,
    /// Fully closed.
    Close,
}

impl Hole {
    /// The glyph drawn for this hole.
    pub open spec fn glyph(self) -> char {
        match self {
            Hole::Open => '○',
            Hole::Half => '◐',
            Hole::Close => '●',
        }
    }

    /// The glyph of this hole as a string of one character.
    pub fn to_string(&self) -> (r: String)
        ensures
            r@ == seq![self.glyph()],
    {
        let s = match self {
            Hole::Open => "○",
            Hole::Half => "◐",
            Hole::Close => "●",
        };
        proof {
            reveal_strlit("○");
            reveal_strlit("◐");
            reveal_strlit("●");
        }
        String::from_str(s)
    }
}

/// A fingering: the state of each of the eight holes of the instrument.
#[derive(Debug, Clone, Copy, PartialEq, Eq, Structural)]
pub struct Fingering {
    /// Left thumb.
    pub left_0: Hole,
    /// Left index finger.
    pub left_1: Hole,
    /// Left middle finger.
    pub left_2: Hole,
    /// Left ring finger.
    pub left_3: Hole,
    /// Right index finger.
    pub right_4: Hole,
    /// Right middle finger.
    pub right_5: Hole,
    /// Right ring finger.
    pub right_6: Hole,
    /// Right little finger.
    pub right_7: Hole,
}

/// The row that separates groups of holes in a drawing.
pub open spec fn separator_row() -> Seq<char> {
    seq!['-']
}

impl Fingering {
    /// The drawing used beside the notation: the four holes of the left hand,
    /// one separator row, then the four holes of the right hand.
    pub open spec fn diagram_rows(self) -> Seq<Seq<char>> {
        seq![
            seq![self.left_0.glyph()],
            seq![self.left_1.glyph()],
            seq![self.left_2.glyph()],
            seq![self.left_3.glyph()],
            separator_row(),
            seq![self.right_4.glyph()],
            seq![self.right_5.glyph()],
            seq![self.right_6.glyph()],
            seq![self.right_7.glyph()],
        ]
    }

    /// The text form: the thumb, a separator, the three left fingers, a separator,
    /// the four right fingers; every row ends with a newline.
    pub open spec fn text(self) -> Seq<char> {
        seq![self.left_0.glyph(), '\n', '-', '\n']
            + seq![self.left_1.glyph(), '\n', self.left_2.glyph(), '\n', self.left_3.glyph(), '\n']
            + seq!['-', '\n']
            + seq![self.right_4.glyph(), '\n', self.right_5.glyph(), '\n']
            + seq![self.right_6.glyph(), '\n', self.right_7.glyph(), '\n']
    }

    /// Creates a fingering from the state of each hole.
    pub fn new(
        left_0: Hole,
        left_1: Hole,
        left_2: Hole,
        left_3: Hole,
        right_4: Hole,
        right_5: Hole,
        right_6: Hole,
        right_7: Hole,
    ) -> (r: Self)
        ensures
            r == (Fingering { left_0, left_1, left_2, left_3, right_4, right_5, right_6, right_7 }),
    {
        Fingering { left_0, left_1, left_2, left_3, right_4, right_5, right_6, right_7 }
    }

    /// The rows of `diagram_rows`, one string each.
    pub fn diagram(&self) -> (r: Vec<String>)
        ensures
            r@.len() == 9,
            forall|i: int| 0 <= i < 9 ==> #[trigger] r@[i]@ == self.diagram_rows()[i],
    {
        let mut r: Vec<String> = Vec::new();
        r.push(self.left_0.to_string());
        r.push(self.left_1.to_string());
        r.push(self.left_2.to_string());
        r.push(self.left_3.to_string());
        r.push(separator());
        r.push(self.right_4.to_string());
        r.push(self.right_5.to_string());
        r.push(self.right_6.to_string());
        r.push(self.right_7.to_string());
        r
    }

    /// The text form of this fingering (see `text`).
    pub fn to_string(&self) -> (r: String)
        ensures
            r@ == self.text(),
    {
        let mut r = self.left_0.to_string();
        r.append(newline().as_str());
        r.append(separator().as_str());
        r.append(newline().as_str());
        let cells = [self.left_1, self.left_2, self.left_3];
        let mut i: usize = 0;
        while i < 3
            invariant
                0 <= i <= 3,
                cells@ == seq![self.left_1, self.left_2, self.left_3],
                r@ == seq![self.left_0.glyph(), '\n', '-', '\n'] + Seq::new(
                    2 * i as nat,
                    |k: int| if k % 2 == 0 { cells@[k / 2].glyph() } else { '\n' },
                ),
            decreases 3 - i,
        {
            r.append(cells[i].to_string().as_str());
            r.append(newline().as_str());
            i = i + 1;
        }
        r.append(separator().as_str());
        r.append(newline().as_str());
        let cells = [self.right_4, self.right_5, self.right_6, self.right_7];
        let ghost head = r@;
        let mut i: usize = 0;
        while i < 4
            invariant
                0 <= i <= 4,
                cells@ == seq![self.right_4, self.right_5, self.right_6, self.right_7],
                r@ == head + Seq::new(
                    2 * i as nat,
                    |k: int| if k % 2 == 0 { cells@[k / 2].glyph() } else { '\n' },
                ),
            decreases 4 - i,
        {
            r.append(cells[i].to_string().as_str());
            r.append(newline().as_str());
            i = i + 1;
        }
        r
    }
}

fn separator() -> (r: String)
    ensures
        r@ == separator_row(),
{
    proof {
        reveal_strlit("-");
    }
    String::from_str("-")
}

fn newline() -> (r: String)
    ensures
        r@ == seq!['\n'],
{
    proof {
        reveal_strlit("\n");
    }
    String::from_str("\n")
}

} // verus!
