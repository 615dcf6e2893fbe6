use vstd::prelude::*;

use super::parser::{
    is_space, lex, lines, parse_line, pending_kind, prepend, split_state, trim, trim_end,
    trim_start, TokenView,
};
use super::{digit_value, Notation, NotationType};

verus! {

/// The text of a line of tokens: each token's text, one after the other.
pub open spec fn line_text(ts: Seq<TokenView>) -> Seq<char> {
    Seq::new(ts.len(), |j: int| ts[j].text()).flatten()
}

/// Symbols and spaces only, each symbol with a degree from 1 to 7 and followed by a
/// space or by the end of the line.
pub open spec fn well_spaced(ts: Seq<TokenView>) -> bool {
    forall|j: int|
        0 <= j < ts.len() ==> match #[trigger] ts[j] {
            TokenView::Whitespace => true,
            TokenView::Notation(n) => n.wf() && (j + 1 == ts.len() || ts[j + 1] is Whitespace),
            TokenView::Raw(_) => false,
        }
}

proof fn lemma_line_text_split(ts: Seq<TokenView>)
    requires
        ts.len() > 0,
    ensures
        line_text(ts) == ts[0].text() + line_text(ts.drop_first()),
        line_text(ts) == line_text(ts.drop_last()) + ts.last().text(),
{
    let f = Seq::new(ts.len(), |j: int| ts[j].text());
    assert(f.drop_first() =~= Seq::new(ts.drop_first().len(), |j: int| ts.drop_first()[j].text()));
    assert(f =~= Seq::new(ts.drop_last().len(), |j: int| ts.drop_last()[j].text()).push(
        ts.last().text(),
    ));
    Seq::new(ts.drop_last().len(), |j: int| ts.drop_last()[j].text()).lemma_flatten_push(
        ts.last().text(),
    );
}

proof fn lemma_text_shape(n: Notation)
    requires
        n.wf(),
    ensures
        n.text().len() >= 1,
        n.text()[0] == '(' || n.text()[0] == '[' || n.text()[0] == '#' || digit_value(n.text()[0]) is Some,
        n.text().last() == ')' || n.text().last() == ']' || digit_value(n.text().last()) is Some,
        forall|m: int| 0 <= m < n.text().len() ==> #[trigger] n.text()[m] != '\n' && n.text()[m] != ' ',
{
}

/// `lex` reads a symbol written in canonical text and followed by a space or the end.
proof fn lemma_lex_symbol(t: Seq<char>, i: int, n: Notation)
    requires
        n.wf(),
        0 <= i,
        i + n.text().len() <= t.len(),
        t.subrange(i, i + n.text().len()) == n.text(),
        i + n.text().len() == t.len() || t[i + n.text().len()] == ' ',
    ensures
        lex(t, i, false, false, false, false, false) == prepend(
            seq![TokenView::Notation(n)],
            lex(t, i + n.text().len(), false, false, false, false, false),
        ),
{
    let x = n.text();
    let o = n.kind.opening().len() as int;
    let sh = if n.is_sharp { 1int } else { 0int };
    let d = i + o + sh;
    assert forall|m: int| 0 <= m < x.len() implies #[trigger] t[i + m] == x[m] by {
        assert(t.subrange(i, i + x.len())[m] == t[i + m]);
    }
    let low = n.kind == NotationType::Low;
    let llow = n.kind == NotationType::LLow;
    let high = n.kind == NotationType::High;
    let hhigh = n.kind == NotationType::HHigh;
    assert(t[d] == x[o + sh]);
    assert(x[o + sh] == crate::notation::digit_char(n.number as int));
    if o == 2 {
        assert(t[i] == x[0] && t[i + 1] == x[1]);
    } else if o == 1 {
        assert(t[i] == x[0] && t[i + 1] == x[1]);
    }
    assert(lex(t, i, false, false, false, false, false) == lex(t, i + o, false, low, llow, high, hhigh));
    if n.is_sharp {
        assert(t[i + o] == x[o]);
    }
    assert(lex(t, i + o, false, low, llow, high, hhigh) == lex(t, d, n.is_sharp, low, llow, high, hhigh));
    let j = d + 1 + n.kind.closing().len();
    assert(j == i + x.len());
    assert(t.subrange(d + 1, j) =~= n.kind.closing()) by {
        assert forall|m: int| 0 <= m < n.kind.closing().len() implies #[trigger] t.subrange(d + 1, j)[m]
            == n.kind.closing()[m] by {
            assert(t[d + 1 + m] == x[o + sh + 1 + m]);
        }
    }
    assert(pending_kind(low, llow, high, hhigh) == n.kind);
}

/// `lex` reads back the text of a well-spaced line of tokens, wherever it starts.
pub proof fn lemma_lex_line_text(p: Seq<char>, ts: Seq<TokenView>)
    requires
        well_spaced(ts),
    ensures
        lex(p + line_text(ts), p.len() as int, false, false, false, false, false) == Some(ts),
    decreases ts.len(),
{
    let t = p + line_text(ts);
    if ts.len() == 0 {
        assert(line_text(ts) =~= seq![]);
        assert(t =~= p);
    } else {
        let rest = ts.drop_first();
        assert forall|j: int| 0 <= j < rest.len() implies match #[trigger] rest[j] {
            TokenView::Whitespace => true,
            TokenView::Notation(n) => n.wf() && (j + 1 == rest.len() || rest[j + 1] is Whitespace),
            TokenView::Raw(_) => false,
        } by {
            assert(rest[j] == ts[j + 1]);
            let _ = ts[j + 1];
            if j + 1 < rest.len() {
                assert(rest[j + 1] == ts[j + 2]);
            }
        }
        lemma_line_text_split(ts);
        let first = ts[0];
        let p2 = p + first.text();
        lemma_lex_line_text(p2, rest);
        assert(p2 + line_text(rest) =~= t);
        assert(seq![first] + rest =~= ts);
        match first {
            TokenView::Whitespace => {
                assert(t[p.len() as int] == ' ');
            },
            TokenView::Notation(n) => {
                let x = n.text();
                assert(t.subrange(p.len() as int, (p.len() + x.len()) as int) =~= x);
                if rest.len() > 0 {
                    assert(rest[0] == ts[1]);
                    assert(ts[1] is Whitespace);
                    lemma_line_text_split(rest);
                    assert(t[(p.len() + x.len()) as int] == line_text(rest)[0]);
                } else {
                    assert(line_text(rest) =~= seq![]);
                }
                lemma_lex_symbol(t, p.len() as int, n);
            },
            TokenView::Raw(_) => {},
        }
    }
}

/// Every line of tokens that `lex` reads is well spaced.
pub proof fn lemma_lex_well_spaced(
    t: Seq<char>,
    i: int,
    sharp: bool,
    low: bool,
    llow: bool,
    high: bool,
    hhigh: bool,
)
    ensures
        lex(t, i, sharp, low, llow, high, hhigh) matches Some(ts) ==> well_spaced(ts),
    decreases t.len() - i,
{
    if 0 <= i < t.len() {
        let c = t[i];
        if c == ' ' {
            lemma_lex_well_spaced(t, i + 1, sharp, low, llow, high, hhigh);
            if let Some(rest) = lex(t, i + 1, sharp, low, llow, high, hhigh) {
                let ts = seq![TokenView::Whitespace] + rest;
                assert forall|j: int| 0 <= j < ts.len() implies match #[trigger] ts[j] {
                    TokenView::Whitespace => true,
                    TokenView::Notation(n) => n.wf() && (j + 1 == ts.len() || ts[j + 1] is Whitespace),
                    TokenView::Raw(_) => false,
                } by {
                    if j > 0 {
                        assert(ts[j] == rest[j - 1]);
                        let _ = rest[j - 1];
                        if j + 1 < ts.len() {
                            assert(ts[j + 1] == rest[j]);
                        }
                    }
                }
            }
        } else if c == '#' {
            lemma_lex_well_spaced(t, i + 1, true, low, llow, high, hhigh);
        } else if c == '(' {
            if i + 1 < t.len() {
                lemma_lex_well_spaced(t, i + 2, sharp, low, true, high, hhigh);
                lemma_lex_well_spaced(t, i + 1, sharp, true, llow, high, hhigh);
            }
        } else if c == '[' {
            if i + 1 < t.len() {
                lemma_lex_well_spaced(t, i + 2, sharp, low, llow, high, true);
                lemma_lex_well_spaced(t, i + 1, sharp, low, llow, true, hhigh);
            }
        } else {
            let j = i + 1 + pending_kind(low, llow, high, hhigh).closing().len();
            if j <= t.len() {
                lemma_lex_well_spaced(t, j, false, false, false, false, false);
                if let Some(ts) = lex(t, i, sharp, low, llow, high, hhigh) {
                    let rest = lex(t, j, false, false, false, false, false)->0;
                    assert(ts == seq![ts[0]] + rest);
                    if rest.len() > 0 {
                        assert(j < t.len());
                        assert(t[j] == ' ');
                        assert(rest[0] is Whitespace);
                    }
                    assert forall|m: int| 0 <= m < ts.len() implies match #[trigger] ts[m] {
                        TokenView::Whitespace => true,
                        TokenView::Notation(n) => n.wf() && (m + 1 == ts.len() || ts[m + 1] is Whitespace),
                        TokenView::Raw(_) => false,
                    } by {
                        if m > 0 {
                            assert(ts[m] == rest[m - 1]);
                            let _ = rest[m - 1];
                            if m + 1 < ts.len() {
                                assert(ts[m + 1] == rest[m]);
                            }
                        } else if ts.len() > 1 {
                            assert(ts[1] == rest[0]);
                        }
                    }
                }
            }
        }
    }
}

/// `lex` reads no empty line of tokens from a position inside the line.
proof fn lemma_lex_not_empty(
    t: Seq<char>,
    i: int,
    sharp: bool,
    low: bool,
    llow: bool,
    high: bool,
    hhigh: bool,
)
    ensures
        0 <= i < t.len() ==> lex(t, i, sharp, low, llow, high, hhigh) != Some(
            Seq::<TokenView>::empty(),
        ),
    decreases t.len() - i,
{
    if 0 <= i < t.len() {
        let c = t[i];
        if c == ' ' {
        } else if c == '#' {
            lemma_lex_not_empty(t, i + 1, true, low, llow, high, hhigh);
        } else if c == '(' {
            if i + 1 < t.len() {
                lemma_lex_not_empty(t, i + 2, sharp, low, true, high, hhigh);
                lemma_lex_not_empty(t, i + 1, sharp, true, llow, high, hhigh);
            }
        } else if c == '[' {
            if i + 1 < t.len() {
                lemma_lex_not_empty(t, i + 2, sharp, low, llow, high, true);
                lemma_lex_not_empty(t, i + 1, sharp, low, llow, true, hhigh);
            }
        } else {
            if let Some(ts) = lex(t, i, sharp, low, llow, high, hhigh) {
                assert(ts.len() >= 1);
            }
        }
    }
}

/// A line of tokens read from text that does not end with a space does not end with
/// a whitespace token.
pub proof fn lemma_lex_last(
    t: Seq<char>,
    i: int,
    sharp: bool,
    low: bool,
    llow: bool,
    high: bool,
    hhigh: bool,
)
    requires
        0 <= i,
        t.len() > 0,
        t.last() != ' ',
    ensures
        lex(t, i, sharp, low, llow, high, hhigh) matches Some(ts) ==> (ts.len() == 0 || !(
        ts.last() is Whitespace)),
    decreases t.len() - i,
{
    if 0 <= i < t.len() {
        let c = t[i];
        if c == ' ' {
            lemma_lex_last(t, i + 1, sharp, low, llow, high, hhigh);
            lemma_lex_not_empty(t, i + 1, sharp, low, llow, high, hhigh);
            if let Some(rest) = lex(t, i + 1, sharp, low, llow, high, hhigh) {
                assert(i + 1 < t.len());
                if rest.len() == 0 {
                    assert(rest =~= Seq::<TokenView>::empty());
                }
                let ts = seq![TokenView::Whitespace] + rest;
                assert(ts.last() == rest.last());
            }
        } else if c == '#' {
            lemma_lex_last(t, i + 1, true, low, llow, high, hhigh);
        } else if c == '(' {
            if i + 1 < t.len() {
                lemma_lex_last(t, i + 2, sharp, low, true, high, hhigh);
                lemma_lex_last(t, i + 1, sharp, true, llow, high, hhigh);
            }
        } else if c == '[' {
            if i + 1 < t.len() {
                lemma_lex_last(t, i + 2, sharp, low, llow, high, true);
                lemma_lex_last(t, i + 1, sharp, low, llow, true, hhigh);
            }
        } else {
            let j = i + 1 + pending_kind(low, llow, high, hhigh).closing().len();
            if j <= t.len() {
                lemma_lex_last(t, j, false, false, false, false, false);
                if let Some(ts) = lex(t, i, sharp, low, llow, high, hhigh) {
                    let rest = lex(t, j, false, false, false, false, false)->0;
                    assert(ts == seq![ts[0]] + rest);
                    if rest.len() > 0 {
                        assert(ts.last() == rest.last());
                    }
                }
            }
        }
    }
}

proof fn lemma_trim_start_shape(s: Seq<char>)
    ensures
        trim_start(s).len() <= s.len(),
        trim_start(s) == s.subrange(s.len() - trim_start(s).len(), s.len() as int),
        trim_start(s).len() == 0 || !is_space(trim_start(s)[0]),
    decreases s.len(),
{
    if s.len() > 0 && is_space(s[0]) {
        lemma_trim_start_shape(s.drop_first());
        let u = trim_start(s.drop_first());
        assert(s.drop_first().subrange(s.len() - 1 - u.len(), s.len() - 1) =~= s.subrange(
            s.len() - u.len(),
            s.len() as int,
        ));
    } else {
        assert(s.subrange(0, s.len() as int) =~= s);
    }
}

proof fn lemma_trim_end_shape(s: Seq<char>)
    ensures
        trim_end(s).len() <= s.len(),
        trim_end(s) == s.subrange(0, trim_end(s).len() as int),
        trim_end(s).len() == 0 || !is_space(trim_end(s).last()),
    decreases s.len(),
{
    if s.len() > 0 && is_space(s.last()) {
        lemma_trim_end_shape(s.drop_last());
        let u = trim_end(s.drop_last());
        assert(s.drop_last().subrange(0, u.len() as int) =~= s.subrange(0, u.len() as int));
    } else {
        assert(s.subrange(0, s.len() as int) =~= s);
    }
}

/// A trimmed line starts and ends with a character that is not white space, and holds
/// no character that the line did not hold.
pub proof fn lemma_trim_shape(s: Seq<char>)
    ensures
        trim(s).len() == 0 || (!is_space(trim(s)[0]) && !is_space(trim(s).last())),
        (forall|m: int| 0 <= m < s.len() ==> s[m] != '\n') ==> (forall|m: int|
            0 <= m < trim(s).len() ==> trim(s)[m] != '\n'),
{
    lemma_trim_start_shape(s);
    let u = trim_start(s);
    lemma_trim_end_shape(u);
    let v = trim_end(u);
    if v.len() > 0 {
        assert(v[0] == u[0]);
    }
    if forall|m: int| 0 <= m < s.len() ==> s[m] != '\n' {
        assert forall|m: int| 0 <= m < v.len() implies v[m] != '\n' by {
            assert(v[m] == u[m]);
            assert(u[m] == s[s.len() - u.len() + m]);
        }
    }
}

/// A line that starts and ends with a character that is not white space is its own
/// trimmed form.
pub proof fn lemma_trim_fixed(s: Seq<char>)
    requires
        s.len() == 0 || (!is_space(s[0]) && !is_space(s.last())),
    ensures
        trim(s) == s,
{
}

/// Parsing the text of a well-spaced line that neither starts nor ends with a
/// whitespace token gives the same tokens.
pub proof fn lemma_parse_line_text(ts: Seq<TokenView>)
    requires
        well_spaced(ts),
        ts.len() > 0 ==> !(ts[0] is Whitespace) && !(ts.last() is Whitespace),
    ensures
        parse_line(line_text(ts)) == Some(ts),
{
    let lt = line_text(ts);
    if ts.len() == 0 {
        assert(lt =~= seq![]);
    } else {
        let _ = ts[0];
        let _ = ts[ts.len() - 1];
        lemma_line_text_split(ts);
        if let TokenView::Notation(n) = ts[0] {
            lemma_text_shape(n);
            assert(lt[0] == n.text()[0]);
        }
        if let TokenView::Notation(n) = ts.last() {
            lemma_text_shape(n);
            assert(lt.last() == n.text().last());
        }
        lemma_trim_fixed(lt);
        lemma_lex_line_text(seq![], ts);
        assert(seq![] + lt =~= lt);
    }
}

/// The text of a line of symbols and spaces holds no newline, and is empty only for an
/// empty line.
pub proof fn lemma_line_text_plain(ts: Seq<TokenView>)
    requires
        forall|j: int| 0 <= j < ts.len() ==> #[trigger] ts[j].wf() && !(ts[j] is Raw),
    ensures
        forall|m: int| 0 <= m < line_text(ts).len() ==> line_text(ts)[m] != '\n',
        ts.len() > 0 ==> line_text(ts).len() > 0,
    decreases ts.len(),
{
    if ts.len() > 0 {
        let init = ts.drop_last();
        assert forall|j: int| 0 <= j < init.len() implies #[trigger] init[j].wf() && !(init[j] is Raw) by {
            assert(init[j] == ts[j]);
        }
        lemma_line_text_plain(init);
        lemma_line_text_split(ts);
        let last = ts[ts.len() - 1];
        assert(last.wf());
        if let TokenView::Notation(n) = last {
            lemma_text_shape(n);
        }
        let lt = line_text(ts);
        assert forall|m: int| 0 <= m < lt.len() implies lt[m] != '\n' by {
            if m >= line_text(init).len() {
                assert(lt[m] == last.text()[m - line_text(init).len()]);
            } else {
                assert(lt[m] == line_text(init)[m]);
            }
        }
    } else {
        assert(line_text(ts) =~= seq![]);
    }
}

proof fn lemma_split_state_plain(s: Seq<char>)
    ensures
        forall|k: int, m: int|
            0 <= k < split_state(s).0.len() && 0 <= m < split_state(s).0[k].len() ==> #[trigger] split_state(s).0[k][m] != '\n',
        forall|m: int| 0 <= m < split_state(s).1.len() ==> #[trigger] split_state(s).1[m] != '\n',
    decreases s.len(),
{
    if s.len() > 0 {
        lemma_split_state_plain(s.drop_last());
        let (done, cur) = split_state(s.drop_last());
        let (done2, cur2) = split_state(s);
        if s.last() == '\n' {
            assert(done2 == done.push(cur));
            assert forall|k: int, m: int| 0 <= k < done2.len() && 0 <= m < done2[k].len() implies #[trigger] done2[k][m] != '\n' by {
                if k < done.len() {
                    assert(done2[k] == done[k]);
                    assert(done[k][m] == split_state(s.drop_last()).0[k][m]);
                } else {
                    assert(done2[k] == cur);
                    assert(cur[m] == split_state(s.drop_last()).1[m]);
                }
            }
            assert(cur2.len() == 0);
        } else {
            assert(done2 == done);
            assert(cur2 == cur.push(s.last()));
            assert forall|k: int, m: int| 0 <= k < done2.len() && 0 <= m < done2[k].len() implies #[trigger] done2[k][m] != '\n' by {
                assert(done[k][m] == split_state(s.drop_last()).0[k][m]);
            }
            assert forall|m: int| 0 <= m < cur2.len() implies #[trigger] cur2[m] != '\n' by {
                if m < cur.len() {
                    assert(cur2[m] == cur[m]);
                    assert(cur[m] == split_state(s.drop_last()).1[m]);
                }
            }
        }
    }
}

/// No line of a text holds a newline.
pub proof fn lemma_lines_plain(s: Seq<char>)
    ensures
        forall|k: int, m: int|
            0 <= k < lines(s).len() && 0 <= m < lines(s)[k].len() ==> #[trigger] lines(s)[k][m] != '\n',
{
    lemma_split_state_plain(s);
    let (done, cur) = split_state(s);
    if cur.len() > 0 {
        assert forall|k: int, m: int|
            0 <= k < lines(s).len() && 0 <= m < lines(s)[k].len() implies #[trigger] lines(s)[k][m] != '\n' by {
            if k < done.len() {
                assert(lines(s)[k] == done[k]);
                assert(done[k][m] == split_state(s).0[k][m]);
            } else {
                assert(lines(s)[k] == cur);
                assert(cur[m] == split_state(s).1[m]);
            }
        }
    }
}

} // verus!
