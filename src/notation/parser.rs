use vstd::prelude::*;

use super::{digit_value, Notation, NotationType};

verus! {

/// An error met while reading notation text, with a message for people.
#[derive(Debug, PartialEq)]
pub struct ParseError(pub String);

impl ParseError {
    /// The message of this error.
    pub fn to_string(&self) -> (r: String)
        ensures
            r@ == self.0@,
    {
        self.0.clone()
    }
}

/// One token of a line of notation.
#[derive(Debug, PartialEq)]
pub enum Token {
    /// A symbol such as `#1` or `((5))`.
    Notation(Notation),
    /// A whole comment line, kept as it was written (after trimming).
    Raw(String),
    /// One space.
    Whitespace,
}

/// What a token holds, with the comment text as a sequence of characters.
pub enum TokenView {
    Notation(Notation),
    Raw(Seq<char>),
    Whitespace,
}

impl View for Token {
    type V = TokenView;

    open spec fn view(&self) -> TokenView {
        match self {
            Token::Notation(n) => TokenView::Notation(*n),
            Token::Raw(s) => TokenView::Raw(s@),
            Token::Whitespace => TokenView::Whitespace,
        }
    }
}

impl TokenView {
    /// Every symbol has a degree from 1 to 7.
    pub open spec fn wf(self) -> bool {
        match self {
            TokenView::Notation(n) => n.wf(),
            _ => true,
        }
    }

    /// The text of the token: a symbol's canonical text, a comment as it is,
    /// a space for whitespace.
    pub open spec fn text(self) -> Seq<char> {
        match self {
            TokenView::Notation(n) => n.text(),
            TokenView::Raw(s) => s,
            TokenView::Whitespace => seq![' '],
        }
    }
}

/// The views of a sequence of tokens.
pub open spec fn tokens_view(v: Seq<Token>) -> Seq<TokenView> {
    v.map_values(|t: Token| t@)
}

impl Token {
    /// The text of this token.
    pub fn to_string(&self) -> (r: String)
        requires
            self@.wf(),
        ensures
            r@ == self@.text(),
    {
        match self {
            Token::Notation(n) => n.to_string(),
            Token::Raw(s) => s.clone(),
            Token::Whitespace => {
                proof {
                    reveal_strlit(" ");
                }
                String::from_str(" ")
            },
        }
    }
}

/// A character with the Unicode `White_Space` property.
pub open spec fn is_space(c: char) -> bool {
    let u = c as u32;
    ||| 0x9 <= u <= 0xd
    ||| u == 0x20
    ||| u == 0x85
    ||| u == 0xa0
    ||| u == 0x1680
    ||| 0x2000 <= u <= 0x200a
    ||| u == 0x2028
    ||| u == 0x2029
    ||| u == 0x202f
    ||| u == 0x205f
    ||| u == 0x3000
}

/// `s` without the white space at its start.
pub open spec fn trim_start(s: Seq<char>) -> Seq<char>
    decreases s.len(),
{
    if s.len() > 0 && is_space(s[0]) {
        trim_start(s.drop_first())
    } else {
        s
    }
}

/// `s` without the white space at its end.
pub open spec fn trim_end(s: Seq<char>) -> Seq<char>
    decreases s.len(),
{
    if s.len() > 0 && is_space(s.last()) {
        trim_end(s.drop_last())
    } else {
        s
    }
}

/// `s` without white space at either end.
pub open spec fn trim(s: Seq<char>) -> Seq<char> {
    trim_end(trim_start(s))
}

/// Splitting `s` at each `'\n'`: the lines already ended, and the text after the
/// last `'\n'`.
pub open spec fn split_state(s: Seq<char>) -> (Seq<Seq<char>>, Seq<char>)
    decreases s.len(),
{
    if s.len() == 0 {
        (seq![], seq![])
    } else {
        let (done, cur) = split_state(s.drop_last());
        if s.last() == '\n' {
            (done.push(cur), seq![])
        } else {
            (done, cur.push(s.last()))
        }
    }
}

/// The lines of `s`: split at each `'\n'`, where a final `'\n'` ends the last line
/// and starts no empty one. A `'\r'` before the `'\n'` stays on the line; trimming
/// removes it.
pub open spec fn lines(s: Seq<char>) -> Seq<Seq<char>> {
    let (done, cur) = split_state(s);
    if cur.len() == 0 {
        done
    } else {
        done.push(cur)
    }
}

/// The octave band that pending brackets ask for.
pub open spec fn pending_kind(low: bool, llow: bool, high: bool, hhigh: bool) -> NotationType {
    if low {
        NotationType::Low
    } else if high {
        NotationType::High
    } else if llow {
        NotationType::LLow
    } else if hhigh {
        NotationType::HHigh
    } else {
        NotationType::Normal
    }
}

/// `a` before the tokens of `r`, if there are any.
pub open spec fn prepend(a: Seq<TokenView>, r: Option<Seq<TokenView>>) -> Option<Seq<TokenView>> {
    match r {
        Some(x) => Some(a + x),
        None => None,
    }
}

/// The tokens of line `t` from position `i`, given the modifiers still pending there:
/// a sharp, and opened brackets (`(`, `((`, `[`, `[[`). None where the line is malformed.
pub open spec fn lex(
    t: Seq<char>,
    i: int,
    sharp: bool,
    low: bool,
    llow: bool,
    high: bool,
    hhigh: bool,
) -> Option<Seq<TokenView>>
    decreases t.len() - i,
{
    if i < 0 || i >= t.len() {
        if sharp || low || llow || high || hhigh {
            None
        } else {
            Some(seq![])
        }
    } else {
        let c = t[i];
        if c == ' ' {
            prepend(seq![TokenView::Whitespace], lex(t, i + 1, sharp, low, llow, high, hhigh))
        } else if c == '#' {
            lex(t, i + 1, true, low, llow, high, hhigh)
        } else if c == '(' {
            if i + 1 >= t.len() {
                None
            } else if t[i + 1] == '(' {
                lex(t, i + 2, sharp, low, true, high, hhigh)
            } else {
                lex(t, i + 1, sharp, true, llow, high, hhigh)
            }
        } else if c == '[' {
            if i + 1 >= t.len() {
                None
            } else if t[i + 1] == '[' {
                lex(t, i + 2, sharp, low, llow, high, true)
            } else {
                lex(t, i + 1, sharp, low, llow, true, hhigh)
            }
        } else {
            match digit_value(c) {
                None => None,
                Some(d) => {
                    let kind = pending_kind(low, llow, high, hhigh);
                    let j = i + 1 + kind.closing().len();
                    if j <= t.len() && t.subrange(i + 1, j) == kind.closing() && (j == t.len()
                        || t[j] == ' ') {
                        prepend(
                            seq![TokenView::Notation(Notation { kind, number: d, is_sharp: sharp })],
                            lex(t, j, false, false, false, false, false),
                        )
                    } else {
                        None
                    }
                },
            }
        }
    }
}

/// The tokens of one line: none for a blank line, one `Raw` token for a comment
/// (a line that starts with `//`), otherwise the symbols and spaces of the trimmed line.
pub open spec fn parse_line(l: Seq<char>) -> Option<Seq<TokenView>> {
    let t = trim(l);
    if t.len() == 0 {
        Some(seq![])
    } else if t.len() >= 2 && t[0] == '/' && t[1] == '/' {
        Some(seq![TokenView::Raw(t)])
    } else {
        lex(t, 0, false, false, false, false, false)
    }
}

/// The tokens of each line of `s`, or none where a line is malformed.
pub open spec fn parse_text(s: Seq<char>) -> Option<Seq<Seq<TokenView>>> {
    let ls = lines(s);
    if forall|k: int| 0 <= k < ls.len() ==> #[trigger] parse_line(ls[k]) is Some {
        Some(Seq::new(ls.len(), |k: int| parse_line(ls[k])->0))
    } else {
        None
    }
}

/// Parsed notation text: the tokens of each line.
#[derive(Debug, PartialEq)]
pub struct Parser {
    pub inner: Vec<Vec<Token>>,
}

impl View for Parser {
    type V = Seq<Seq<TokenView>>;

    open spec fn view(&self) -> Seq<Seq<TokenView>> {
        self.inner@.map_values(|l: Vec<Token>| tokens_view(l@))
    }
}

/// The characters of `s`.
fn chars_of(s: &str) -> (r: Vec<char>)
    ensures
        r@ == s@,
{
    let mut r: Vec<char> = Vec::new();
    for c in it: s.chars()
        invariant
            r@ == it.seq().take(it.index() as int),
    {
        proof {
            assert(it.seq().take(it.index() + 1) =~= r@.push(c));
        }
        r.push(c);
    }
    assert(r@ =~= s@);
    r
}

/// Whether `c` is white space (see `is_space`).
fn is_space_char(c: char) -> (r: bool)
    ensures
        r == is_space(c),
{
    let u = c as u32;
    (0x9 <= u && u <= 0xd) || u == 0x20 || u == 0x85 || u == 0xa0 || u == 0x1680 || (0x2000 <= u
        && u <= 0x200a) || u == 0x2028 || u == 0x2029 || u == 0x202f || u == 0x205f || u == 0x3000
}

/// The bounds of the trimmed part of `chars[a..b]`.
fn trim_bounds(chars: &Vec<char>, a: usize, b: usize) -> (r: (usize, usize))
    requires
        a <= b <= chars@.len(),
    ensures
        a <= r.0 <= r.1 <= b,
        chars@.subrange(r.0 as int, r.1 as int) == trim(chars@.subrange(a as int, b as int)),
{
    let mut x = a;
    while x < b && is_space_char(chars[x])
        invariant
            a <= x <= b <= chars@.len(),
            trim_start(chars@.subrange(a as int, b as int)) == trim_start(
                chars@.subrange(x as int, b as int),
            ),
        decreases b - x,
    {
        assert(chars@.subrange(x as int, b as int).drop_first() =~= chars@.subrange(
            x + 1,
            b as int,
        ));
        x = x + 1;
    }
    assert(trim_start(chars@.subrange(x as int, b as int)) == chars@.subrange(x as int, b as int));
    let mut y = b;
    while y > x && is_space_char(chars[y - 1])
        invariant
            a <= x <= y <= b <= chars@.len(),
            trim_end(chars@.subrange(x as int, b as int)) == trim_end(
                chars@.subrange(x as int, y as int),
            ),
        decreases y - x,
    {
        assert(chars@.subrange(x as int, y as int).drop_last() =~= chars@.subrange(
            x as int,
            y - 1,
        ));
        y = y - 1;
    }
    (x, y)
}

/// The bounds in `chars` of each of its lines (see `lines`).
fn line_bounds(chars: &Vec<char>) -> (r: Vec<(usize, usize)>)
    ensures
        r@.len() == lines(chars@).len(),
        forall|k: int|
                #![trigger r@[k]]
            0 <= k < r@.len() ==> r@[k].0 <= r@[k].1 && r@[k].1 <= chars@.len() && chars@.subrange(
                r@[k].0 as int,
                r@[k].1 as int,
            ) == lines(chars@)[k],
{
    let mut r: Vec<(usize, usize)> = Vec::new();
    let mut start: usize = 0;
    let mut i: usize = 0;
    while i < chars.len()
        invariant
            start <= i <= chars@.len(),
            split_state(chars@.take(i as int)).0.len() == r@.len(),
            split_state(chars@.take(i as int)).1 == chars@.subrange(start as int, i as int),
            forall|k: int|
                #![trigger r@[k]]
                0 <= k < r@.len() ==> r@[k].0 <= r@[k].1 && r@[k].1 <= chars@.len() && chars@.subrange(
                    r@[k].0 as int,
                    r@[k].1 as int,
                ) == split_state(chars@.take(i as int)).0[k],
        decreases chars@.len() - i,
    {
        let ghost before = split_state(chars@.take(i as int));
        let ghost old_r = r@;
        assert(chars@.take(i + 1).drop_last() =~= chars@.take(i as int));
        let ghost after = split_state(chars@.take(i + 1));
        if chars[i] == '\n' {
            assert(after.0 == before.0.push(before.1));
            r.push((start, i));
            start = i + 1;
        } else {
            assert(after.0 == before.0);
            assert(chars@.subrange(start as int, i + 1) =~= before.1.push(chars@[i as int]));
        }
        assert forall|k: int| #![trigger r@[k]] 0 <= k < r@.len() implies r@[k].0 <= r@[k].1 && r@[k].1 <= chars@.len()
            && chars@.subrange(r@[k].0 as int, r@[k].1 as int) == after.0[k] by {
            if k < old_r.len() {
                assert(r@[k] == old_r[k]);
                assert(after.0[k] == split_state(chars@.take(i as int)).0[k]);
            }
        }
        i = i + 1;
        assert(chars@.subrange(start as int, i as int) =~= split_state(chars@.take(i as int)).1);
    }
    assert(chars@.take(i as int) =~= chars@);
    let ghost done = split_state(chars@).0;
    let ghost old_r = r@;
    if start < chars.len() {
        r.push((start, chars.len()));
        assert(lines(chars@) == done.push(split_state(chars@).1));
    } else {
        assert(lines(chars@) == done);
    }
    assert forall|k: int| #![trigger r@[k]] 0 <= k < r@.len() implies r@[k].0 <= r@[k].1 && r@[k].1 <= chars@.len()
        && chars@.subrange(r@[k].0 as int, r@[k].1 as int) == lines(chars@)[k] by {
        if k < old_r.len() {
            assert(r@[k] == old_r[k]);
            assert(lines(chars@)[k] == done[k]);
        }
    }
    r
}

/// Every symbol that `lex` reads has a degree from 1 to 7.
pub proof fn lemma_lex_wf(
    t: Seq<char>,
    i: int,
    sharp: bool,
    low: bool,
    llow: bool,
    high: bool,
    hhigh: bool,
)
    ensures
        lex(t, i, sharp, low, llow, high, hhigh) matches Some(ts) ==> forall|j: int|
            0 <= j < ts.len() ==> #[trigger] ts[j].wf(),
    decreases t.len() - i,
{
    if 0 <= i < t.len() {
        let c = t[i];
        if c == ' ' {
            lemma_lex_wf(t, i + 1, sharp, low, llow, high, hhigh);
        } else if c == '#' {
            lemma_lex_wf(t, i + 1, true, low, llow, high, hhigh);
        } else if c == '(' {
            if i + 1 < t.len() {
                lemma_lex_wf(t, i + 2, sharp, low, true, high, hhigh);
                lemma_lex_wf(t, i + 1, sharp, true, llow, high, hhigh);
            }
        } else if c == '[' {
            if i + 1 < t.len() {
                lemma_lex_wf(t, i + 2, sharp, low, llow, high, true);
                lemma_lex_wf(t, i + 1, sharp, low, llow, true, hhigh);
            }
        } else {
            let j = i + 1 + pending_kind(low, llow, high, hhigh).closing().len();
            if j <= t.len() {
                lemma_lex_wf(t, j, false, false, false, false, false);
            }
        }
    }
}

/// Every symbol of parsed text has a degree from 1 to 7.
pub proof fn lemma_parse_text_wf(s: Seq<char>, ls: Seq<Seq<TokenView>>)
    requires
        parse_text(s) == Some(ls),
    ensures
        forall|k: int, j: int| 0 <= k < ls.len() && 0 <= j < ls[k].len() ==> #[trigger] ls[k][j].wf(),
{
    assert forall|k: int, j: int| 0 <= k < ls.len() && 0 <= j < ls[k].len() implies #[trigger] ls[k][j].wf() by {
        lemma_lex_wf(trim(lines(s)[k]), 0, false, false, false, false, false);
    }
}

/// Parsing keeps the lines: parsed text has one token line for each line of the
/// input, blank lines included.
pub proof fn lemma_line_count(s: Seq<char>)
    ensures
        parse_text(s) matches Some(ls) ==> ls.len() == lines(s).len(),
{
}

fn parse_error(msg: &str) -> (r: ParseError) {
    ParseError(String::from_str(msg))
}

impl Parser {
    /// Reads notation text: the tokens of each of its lines (see `parse_text`).
    pub fn from_str(s: &str) -> (r: Result<Self, ParseError>)
        ensures
            r matches Ok(p) ==> parse_text(s@) == Some(p@),
            r is Err <==> parse_text(s@) is None,
    {
        let chars = chars_of(s);
        let bounds = line_bounds(&chars);
        let ghost ls = lines(s@);
        let mut parsed: Vec<Vec<Token>> = Vec::new();
        let mut k: usize = 0;
        while k < bounds.len()
            invariant
                chars@ == s@,
                ls == lines(s@),
                bounds@.len() == ls.len(),
                forall|m: int|
                    #![trigger bounds@[m]]
                    0 <= m < bounds@.len() ==> bounds@[m].0 <= bounds@[m].1 && bounds@[m].1
                        <= chars@.len() && chars@.subrange(bounds@[m].0 as int, bounds@[m].1 as int)
                        == ls[m],
                k <= bounds@.len(),
                parsed@.len() == k,
                forall|m: int|
                    #![trigger parsed@[m]]
                    0 <= m < k ==> parse_line(ls[m]) == Some(tokens_view(parsed@[m]@)),
            decreases bounds@.len() - k,
        {
            let (a, b) = bounds[k];
            let (x, y) = trim_bounds(&chars, a, b);
            let ghost t = chars@.subrange(x as int, y as int);
            assert(t == trim(ls[k as int]));
            let mut vec: Vec<Token> = Vec::new();
            if x == y {
                assert(tokens_view(vec@) =~= seq![]);
            } else if x + 1 < y && chars[x] == '/' && chars[x + 1] == '/' {
                assert(t[0] == chars@[x as int] && t[1] == chars@[x + 1]);
                let raw = String::from_str(s.substring_char(x, y));
                vec.push(Token::Raw(raw));
                assert(tokens_view(vec@) =~= seq![TokenView::Raw(t)]);
            } else {
                let mut line: Vec<char> = Vec::new();
                let mut i: usize = x;
                while i < y
                    invariant
                        x <= i <= y <= chars@.len(),
                        line@ == chars@.subrange(x as int, i as int),
                    decreases y - i,
                {
                    line.push(chars[i]);
                    i = i + 1;
                    assert(line@ =~= chars@.subrange(x as int, i as int));
                }
                assert(line@ == t);
                assert(t[0] == chars@[x as int] && t.len() == y - x);
                assert(x + 1 < y ==> t[1] == chars@[x + 1]);
                assert(parse_line(ls[k as int]) == lex(t, 0, false, false, false, false, false));
                match Self::parse_token_item(&line, &mut vec) {
                    Ok(()) => {
                        assert(tokens_view(vec@) =~= lex(t, 0, false, false, false, false, false)->0);
                    },
                    Err(e) => {
                        assert(!(forall|m: int| 0 <= m < ls.len() ==> #[trigger] parse_line(ls[m]) is Some));
                        return Err(e);
                    },
                }
            }
            parsed.push(vec);
            k = k + 1;
        }
        let p = Parser { inner: parsed };
        assert forall|m: int| 0 <= m < ls.len() implies #[trigger] parse_line(ls[m]) is Some by {
            assert(parse_line(ls[m]) == Some(tokens_view(parsed@[m]@)));
        }
        assert forall|m: int| 0 <= m < ls.len() implies #[trigger] p@[m] == parse_line(ls[m])->0 by {
            assert(parse_line(ls[m]) == Some(tokens_view(parsed@[m]@)));
        }
        assert(p@ =~= Seq::new(ls.len(), |m: int| parse_line(ls[m])->0));
        Ok(p)
    }

    /// Reads the tokens of one trimmed line that is not a comment, and adds them to `vec`.
    #[verifier::rlimit(40)]
    fn parse_token_item(line: &Vec<char>, vec: &mut Vec<Token>) -> (r: Result<(), ParseError>)
        ensures
            r is Ok <==> lex(line@, 0, false, false, false, false, false) is Some,
            r is Ok ==> tokens_view(final(vec)@) == tokens_view(old(vec)@) + lex(
                line@,
                0,
                false,
                false,
                false,
                false,
                false,
            )->0,
    {
        let ghost t = line@;
        let ghost start = tokens_view(vec@);
        let ghost goal = lex(t, 0, false, false, false, false, false);
        let ghost mut pushed: Seq<TokenView> = seq![];
        let n = line.len();
        let mut is_sharp = false;
        let mut is_low = false;
        let mut is_double_low = false;
        let mut is_high = false;
        let mut is_double_high = false;
        let mut i: usize = 0;
        while i < n
            invariant
                n == t.len(),
                t == line@,
                goal == lex(t, 0, false, false, false, false, false),
                start == tokens_view(old(vec)@),
                i <= n,
                tokens_view(vec@) == start + pushed,
                prepend(pushed, lex(t, i as int, is_sharp, is_low, is_double_low, is_high, is_double_high)) == goal,
            decreases n - i,
        {
            let ghost before = vec@;
            let c = line[i];
            if c == ' ' {
                vec.push(Token::Whitespace);
                proof {
                    assert(tokens_view(vec@) =~= tokens_view(before).push(TokenView::Whitespace));
                    assert(pushed + seq![TokenView::Whitespace] =~= pushed.push(TokenView::Whitespace));
                    assert(start + pushed.push(TokenView::Whitespace) =~= (start + pushed).push(TokenView::Whitespace));
                    pushed = pushed.push(TokenView::Whitespace);
                }
                i = i + 1;
            } else if c == '#' {
                is_sharp = true;
                i = i + 1;
            } else if c == '(' {
                if i + 1 >= n {
                    proof {
                        assert(lex(t, i as int, is_sharp, is_low, is_double_low, is_high, is_double_high) is None);
                    }
                    return Err(parse_error("an opened bracket is not closed"));
                }
                if line[i + 1] == '(' {
                    is_double_low = true;
                    i = i + 2;
                } else {
                    is_low = true;
                    i = i + 1;
                }
            } else if c == '[' {
                if i + 1 >= n {
                    proof {
                        assert(lex(t, i as int, is_sharp, is_low, is_double_low, is_high, is_double_high) is None);
                    }
                    return Err(parse_error("an opened bracket is not closed"));
                }
                if line[i + 1] == '[' {
                    is_double_high = true;
                    i = i + 2;
                } else {
                    is_high = true;
                    i = i + 1;
                }
            } else {
                let number: u8 = match c {
                    '1' => 1,
                    '2' => 2,
                    '3' => 3,
                    '4' => 4,
                    '5' => 5,
                    '6' => 6,
                    '7' => 7,
                    _ => {
                        proof {
                            assert(lex(t, i as int, is_sharp, is_low, is_double_low, is_high, is_double_high) is None);
                        }
                        return Err(parse_error("unknown character"));
                    },
                };
                let kind = if is_low {
                    NotationType::Low
                } else if is_high {
                    NotationType::High
                } else if is_double_low {
                    NotationType::LLow
                } else if is_double_high {
                    NotationType::HHigh
                } else {
                    NotationType::Normal
                };
                let j: usize = match kind {
                    NotationType::Low => {
                        if i + 1 < n && line[i + 1] == ')' {
                            assert(t.subrange(i + 1, i + 2) =~= kind.closing());
                            i + 2
                        } else {
                            proof {
                                if i + 2 <= n {
                                    assert(t.subrange(i + 1, i + 2)[0] == t[i + 1]);
                                }
                            }
                            proof {
                                assert(lex(t, i as int, is_sharp, is_low, is_double_low, is_high, is_double_high) is None);
                            }
                            return Err(parse_error("does not close with )"));
                        }
                    },
                    NotationType::High => {
                        if i + 1 < n && line[i + 1] == ']' {
                            assert(t.subrange(i + 1, i + 2) =~= kind.closing());
                            i + 2
                        } else {
                            proof {
                                if i + 2 <= n {
                                    assert(t.subrange(i + 1, i + 2)[0] == t[i + 1]);
                                }
                            }
                            proof {
                                assert(lex(t, i as int, is_sharp, is_low, is_double_low, is_high, is_double_high) is None);
                            }
                            return Err(parse_error("does not close with ]"));
                        }
                    },
                    NotationType::LLow => {
                        if n - i > 2 && line[i + 1] == ')' && line[i + 2] == ')' {
                            assert(t.subrange(i + 1, i + 3) =~= kind.closing());
                            i + 3
                        } else {
                            proof {
                                if i + 3 <= n {
                                    assert(t.subrange(i + 1, i + 3)[0] == t[i + 1]);
                                    assert(t.subrange(i + 1, i + 3)[1] == t[i + 2]);
                                }
                            }
                            proof {
                                assert(lex(t, i as int, is_sharp, is_low, is_double_low, is_high, is_double_high) is None);
                            }
                            return Err(parse_error("does not close with ))"));
                        }
                    },
                    NotationType::HHigh => {
                        if n - i > 2 && line[i + 1] == ']' && line[i + 2] == ']' {
                            assert(t.subrange(i + 1, i + 3) =~= kind.closing());
                            i + 3
                        } else {
                            proof {
                                if i + 3 <= n {
                                    assert(t.subrange(i + 1, i + 3)[0] == t[i + 1]);
                                    assert(t.subrange(i + 1, i + 3)[1] == t[i + 2]);
                                }
                            }
                            proof {
                                assert(lex(t, i as int, is_sharp, is_low, is_double_low, is_high, is_double_high) is None);
                            }
                            return Err(parse_error("does not close with ]]"));
                        }
                    },
                    NotationType::Normal => {
                        assert(t.subrange(i + 1, i + 1) =~= kind.closing());
                        i + 1
                    },
                };
                if j < n && line[j] != ' ' {
                    proof {
                        assert(lex(t, i as int, is_sharp, is_low, is_double_low, is_high, is_double_high) is None);
                    }
                    return Err(parse_error("symbols must be separated by spaces"));
                }
                let item = Notation { kind, number, is_sharp };
                vec.push(Token::Notation(item));
                proof {
                    let tv = TokenView::Notation(item);
                    assert(tokens_view(vec@) =~= tokens_view(before).push(tv));
                    assert(pushed + seq![tv] =~= pushed.push(tv));
                    assert(start + pushed.push(tv) =~= (start + pushed).push(tv));
                    pushed = pushed.push(tv);
                }
                is_sharp = false;
                is_low = false;
                is_double_low = false;
                is_high = false;
                is_double_high = false;
                i = j;
            }
        }
        if is_sharp || is_low || is_double_low || is_high || is_double_high {
            proof {
                assert(lex(t, i as int, is_sharp, is_low, is_double_low, is_high, is_double_high) is None);
            }
            return Err(parse_error("a sharp or a bracket is not followed by a digit"));
        }
        assert(pushed + seq![] =~= pushed);
        Ok(())
    }
}

} // verus!
