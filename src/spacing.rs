use vstd::prelude::*;

use crate::tone::{
    convert_line, convert_token, converted_text, converted_tokens, join_lines, text_converts,
    tone_of_text, FingerTone,
};
use crate::notation::{lemma_alphabet_entry_position, Notation};
use crate::notation::parser::{lines, parse_line, parse_text, split_state, trim, TokenView};
use crate::notation::round_trip::{
    lemma_lex_last, lemma_lex_well_spaced, lemma_line_text_plain, lemma_lines_plain,
    lemma_parse_line_text, lemma_trim_fixed, lemma_trim_shape, line_text, well_spaced,
};

verus! {

/// The number of spaces in `s`.
pub open spec fn spaces(s: Seq<char>) -> nat
    decreases s.len(),
{
    if s.len() == 0 {
        0
    } else {
        spaces(s.drop_last()) + if s.last() == ' ' { 1nat } else { 0nat }
    }
}

/// The number of whitespace tokens in `ts`.
pub open spec fn whitespace_tokens(ts: Seq<TokenView>) -> nat
    decreases ts.len(),
{
    if ts.len() == 0 {
        0
    } else {
        whitespace_tokens(ts.drop_last()) + if ts.last() is Whitespace { 1nat } else { 0nat }
    }
}

proof fn lemma_spaces_concat(a: Seq<char>, b: Seq<char>)
    ensures
        spaces(a + b) == spaces(a) + spaces(b),
    decreases b.len(),
{
    if b.len() > 0 {
        assert((a + b).drop_last() =~= a + b.drop_last());
        lemma_spaces_concat(a, b.drop_last());
    } else {
        assert(a + b =~= a);
    }
}

proof fn lemma_short_spaces(s: Seq<char>)
    requires
        s.len() <= 2,
        forall|i: int| 0 <= i < s.len() ==> s[i] != ' ',
    ensures
        spaces(s) == 0,
{
    reveal_with_fuel(spaces, 3);
    if s.len() == 2 {
        assert(s.drop_last().drop_last() =~= seq![]);
    } else if s.len() == 1 {
        assert(s.drop_last() =~= seq![]);
    }
}

proof fn lemma_notation_has_no_spaces(n: Notation)
    requires
        n.wf(),
    ensures
        spaces(n.text()) == 0,
{
    let sharp: Seq<char> = if n.is_sharp { seq!['#'] } else { seq![] };
    let digit = seq![crate::notation::digit_char(n.number as int)];
    lemma_short_spaces(n.kind.opening());
    lemma_short_spaces(sharp);
    lemma_short_spaces(digit);
    lemma_short_spaces(n.kind.closing());
    lemma_spaces_concat(n.kind.opening(), sharp);
    lemma_spaces_concat(n.kind.opening() + sharp, digit);
    lemma_spaces_concat(n.kind.opening() + sharp + digit, n.kind.closing());
}

/// Conversion keeps every space and adds none: a converted line without a comment has
/// as many spaces as the line had whitespace tokens.
pub proof fn lemma_convert_keeps_whitespace(ts: Seq<TokenView>, from: FingerTone, to: FingerTone)
    requires
        forall|j: int| 0 <= j < ts.len() ==> #[trigger] ts[j].wf(),
        forall|j: int| 0 <= j < ts.len() ==> #[trigger] convert_token(ts[j], from, to) is Some,
        forall|j: int| 0 <= j < ts.len() ==> !(#[trigger] ts[j] is Raw),
    ensures
        spaces(convert_line(ts, from, to)) == whitespace_tokens(ts),
    decreases ts.len(),
{
    if ts.len() > 0 {
        let init = ts.drop_last();
        assert forall|j: int| 0 <= j < init.len() implies #[trigger] init[j].wf()
            && convert_token(init[j], from, to) is Some && !(init[j] is Raw) by {
            assert(init[j] == ts[j]);
        }
        lemma_convert_keeps_whitespace(init, from, to);
        let last = ts.last();
        assert(ts[ts.len() - 1] == last);
        let piece = convert_token(last, from, to)->0;
        assert(converted_tokens(ts, from, to) =~= converted_tokens(init, from, to).push(piece));
        converted_tokens(init, from, to).lemma_flatten_push(piece);
        lemma_spaces_concat(convert_line(init, from, to), piece);
        match last {
            TokenView::Notation(n) => {
                match tone_of_text(n.text(), from) {
                    Some(tone) => {
                        lemma_notation_has_no_spaces(tone.notation(to));
                        lemma_alphabet_entry_position(tone.notation_index(to));
                    },
                    None => {},
                }
            },
            TokenView::Whitespace => {
                reveal_with_fuel(spaces, 2);
                assert(seq![' '].drop_last() =~= Seq::<char>::empty());
            },
            TokenView::Raw(_) => {},
        }
    } else {
        assert(converted_tokens(ts, from, to) =~= Seq::<Seq<char>>::empty());
    }
}

/// The tokens of a converted line: each symbol replaced by the symbol of its tone in
/// the new key.
pub open spec fn converted_views(ts: Seq<TokenView>, from: FingerTone, to: FingerTone) -> Seq<TokenView> {
    Seq::new(
        ts.len(),
        |j: int|
            match ts[j] {
                TokenView::Notation(n) => TokenView::Notation(
                    tone_of_text(n.text(), from)->0.notation(to),
                ),
                TokenView::Raw(r) => TokenView::Raw(r),
                TokenView::Whitespace => TokenView::Whitespace,
            },
    )
}

proof fn lemma_converted_views(ts: Seq<TokenView>, from: FingerTone, to: FingerTone)
    requires
        forall|j: int| 0 <= j < ts.len() ==> #[trigger] convert_token(ts[j], from, to) is Some,
    ensures
        convert_line(ts, from, to) == line_text(converted_views(ts, from, to)),
        forall|j: int|
            0 <= j < ts.len() ==> (#[trigger] converted_views(ts, from, to)[j] is Whitespace
                <==> ts[j] is Whitespace) && (converted_views(ts, from, to)[j] is Raw <==> ts[j] is Raw)
                && converted_views(ts, from, to)[j].wf(),
{
    let cv = converted_views(ts, from, to);
    assert forall|j: int| 0 <= j < ts.len() implies #[trigger] converted_tokens(ts, from, to)[j]
        == cv[j].text() && cv[j].wf() by {
        let _ = convert_token(ts[j], from, to);
        if let TokenView::Notation(n) = ts[j] {
            let tone = tone_of_text(n.text(), from)->0;
            lemma_alphabet_entry_position(tone.notation_index(to));
        }
    }
    assert(converted_tokens(ts, from, to) =~= Seq::new(cv.len(), |j: int| cv[j].text()));
}

proof fn lemma_same_whitespace(a: Seq<TokenView>, b: Seq<TokenView>)
    requires
        a.len() == b.len(),
        forall|j: int| 0 <= j < a.len() ==> (#[trigger] a[j] is Whitespace <==> b[j] is Whitespace),
    ensures
        whitespace_tokens(a) == whitespace_tokens(b),
    decreases a.len(),
{
    if a.len() > 0 {
        assert forall|j: int| 0 <= j < a.len() - 1 implies (#[trigger] a.drop_last()[j] is Whitespace
            <==> b.drop_last()[j] is Whitespace) by {
            assert(a.drop_last()[j] == a[j]);
            assert(b.drop_last()[j] == b[j]);
            let _ = a[j];
        }
        lemma_same_whitespace(a.drop_last(), b.drop_last());
        let _ = a[a.len() - 1];
    }
}

proof fn lemma_split_append(a: Seq<char>, b: Seq<char>)
    requires
        forall|m: int| 0 <= m < b.len() ==> b[m] != '\n',
    ensures
        split_state(a + b) == (split_state(a).0, split_state(a).1 + b),
    decreases b.len(),
{
    if b.len() > 0 {
        assert((a + b).drop_last() =~= a + b.drop_last());
        lemma_split_append(a, b.drop_last());
        assert(split_state(a).1 + b.drop_last() + seq![b.last()] =~= split_state(a).1 + b);
        assert((a + b).last() == b.last());
    } else {
        assert(a + b =~= a);
        assert(split_state(a).1 + b =~= split_state(a).1);
    }
}

proof fn lemma_split_join(ls: Seq<Seq<char>>)
    requires
        ls.len() >= 1,
        forall|k: int, m: int| 0 <= k < ls.len() && 0 <= m < ls[k].len() ==> #[trigger] ls[k][m] != '\n',
    ensures
        split_state(join_lines(ls)) == (ls.drop_last(), ls.last()),
    decreases ls.len(),
{
    assert forall|m: int| 0 <= m < ls.last().len() implies ls.last()[m] != '\n' by {
        assert(ls.last()[m] == ls[ls.len() - 1][m]);
    }
    if ls.len() == 1 {
        lemma_split_append(seq![], ls[0]);
        assert(seq![] + ls[0] =~= ls[0]);
        assert(Seq::<char>::empty() + ls[0] =~= ls[0]);
        assert(ls.drop_last() =~= Seq::<Seq<char>>::empty());
    } else {
        let init = ls.drop_last();
        assert forall|k: int, m: int| 0 <= k < init.len() && 0 <= m < init[k].len() implies #[trigger] init[k][m] != '\n' by {
            assert(init[k][m] == ls[k][m]);
        }
        lemma_split_join(init);
        let a = join_lines(init) + seq!['\n'];
        assert(a.drop_last() =~= join_lines(init));
        assert(split_state(a) == (init.drop_last().push(init.last()), Seq::<char>::empty()));
        assert(init.drop_last().push(init.last()) =~= init);
        lemma_split_append(a, ls.last());
        assert(Seq::<char>::empty() + ls.last() =~= ls.last());
    }
}

proof fn lemma_lines_join(ls: Seq<Seq<char>>)
    requires
        forall|k: int, m: int| 0 <= k < ls.len() && 0 <= m < ls[k].len() ==> #[trigger] ls[k][m] != '\n',
    ensures
        lines(join_lines(ls)) == if ls.len() > 0 && ls.last().len() == 0 {
            ls.drop_last()
        } else {
            ls
        },
{
    if ls.len() > 0 {
        lemma_split_join(ls);
        assert(ls.drop_last().push(ls.last()) =~= ls);
    } else {
        assert(join_lines(ls) =~= Seq::<char>::empty());
    }
}

proof fn lemma_converted_line(s: Seq<char>, k: int, from: FingerTone, to: FingerTone)
    requires
        parse_text(s) is Some,
        0 <= k < parse_text(s)->0.len(),
        text_converts(parse_text(s)->0, from, to),
        parse_text(s)->0[k].len() > 0 ==> !(parse_text(s)->0[k][0] is Whitespace),
    ensures
        parse_line(convert_line(parse_text(s)->0[k], from, to)) is Some,
        whitespace_tokens(parse_line(convert_line(parse_text(s)->0[k], from, to))->0)
            == whitespace_tokens(parse_text(s)->0[k]),
        forall|m: int|
            0 <= m < convert_line(parse_text(s)->0[k], from, to).len() ==> convert_line(
                parse_text(s)->0[k],
                from,
                to,
            )[m] != '\n',
        convert_line(parse_text(s)->0[k], from, to).len() == 0 ==> whitespace_tokens(
            parse_text(s)->0[k],
        ) == 0,
{
    let ls = parse_text(s)->0;
    let ts = ls[k];
    let l = lines(s)[k];
    let t = trim(l);
    assert(parse_line(l) == Some(ts));
    lemma_trim_shape(l);
    lemma_lines_plain(s);
    assert forall|m: int| 0 <= m < l.len() implies l[m] != '\n' by {
        assert(lines(s)[k][m] != '\n');
    }
    assert forall|j: int| 0 <= j < ts.len() implies #[trigger] convert_token(ts[j], from, to) is Some by {
        assert(convert_token(ls[k][j], from, to) is Some);
    }
    if t.len() == 0 {
        assert(ts =~= Seq::<TokenView>::empty());
        assert(converted_tokens(ts, from, to) =~= Seq::<Seq<char>>::empty());
        assert(convert_line(ts, from, to) =~= Seq::<char>::empty());
        lemma_trim_fixed(Seq::<char>::empty());
    } else if t.len() >= 2 && t[0] == '/' && t[1] == '/' {
        assert(ts == seq![TokenView::Raw(t)]);
        assert(converted_tokens(ts, from, to) =~= seq![t]);
        seq![t].lemma_flatten_one_element();
        lemma_trim_fixed(t);
        reveal_with_fuel(whitespace_tokens, 2);
        assert(ts.drop_last() =~= Seq::<TokenView>::empty());
    } else {
        lemma_lex_well_spaced(t, 0, false, false, false, false, false);
        lemma_lex_last(t, 0, false, false, false, false, false);
        lemma_converted_views(ts, from, to);
        let cv = converted_views(ts, from, to);
        assert forall|j: int| 0 <= j < cv.len() implies match #[trigger] cv[j] {
            TokenView::Whitespace => true,
            TokenView::Notation(n) => n.wf() && (j + 1 == cv.len() || cv[j + 1] is Whitespace),
            TokenView::Raw(_) => false,
        } by {
            let _ = cv[j];
            let _ = ts[j];
            if j + 1 < cv.len() {
                let _ = cv[j + 1];
                let _ = ts[j + 1];
            }
        }
        assert(well_spaced(cv));
        if ts.len() > 0 {
            let _ = cv[0];
            let _ = cv[cv.len() - 1];
            assert(ts.last() == ts[ts.len() - 1]);
        }
        lemma_parse_line_text(cv);
        lemma_same_whitespace(cv, ts);
        assert forall|j: int| 0 <= j < cv.len() implies #[trigger] cv[j].wf() && !(cv[j] is Raw) by {
            let _ = cv[j];
        }
        lemma_line_text_plain(cv);
        if ts.len() == 0 {
            reveal_with_fuel(whitespace_tokens, 1);
        }
    }
}

/// Conversion keeps the whitespace tokens of every line: parsing the converted text
/// gives each line as many whitespace tokens as it had, for text in which no line
/// starts with a whitespace token (a space after a pending `#` or bracket). A blank
/// last line is not written back, and counts as a line with none.
pub proof fn lemma_convert_keeps_whitespace_tokens(s: Seq<char>, from: FingerTone, to: FingerTone)
    requires
        parse_text(s) is Some,
        text_converts(parse_text(s)->0, from, to),
        forall|k: int|
            0 <= k < parse_text(s)->0.len() && parse_text(s)->0[k].len() > 0 ==> !(
            #[trigger] parse_text(s)->0[k][0] is Whitespace),
    ensures
        parse_text(converted_text(parse_text(s)->0, from, to)) is Some,
        parse_text(converted_text(parse_text(s)->0, from, to))->0.len() <= parse_text(s)->0.len(),
        forall|k: int|
            0 <= k < parse_text(s)->0.len() ==> #[trigger] whitespace_tokens(parse_text(s)->0[k]) == if k
                < parse_text(converted_text(parse_text(s)->0, from, to))->0.len() {
                whitespace_tokens(parse_text(converted_text(parse_text(s)->0, from, to))->0[k])
            } else {
                0
            },
{
    let ls = parse_text(s)->0;
    let big_l = Seq::new(ls.len(), |k: int| convert_line(ls[k], from, to));
    assert forall|k: int| 0 <= k < ls.len() implies #[trigger] parse_line(big_l[k]) is Some
        && whitespace_tokens(parse_line(big_l[k])->0) == whitespace_tokens(ls[k]) && (forall|m: int|
        0 <= m < big_l[k].len() ==> big_l[k][m] != '\n') && (big_l[k].len() == 0
        ==> whitespace_tokens(ls[k]) == 0) by {
        if ls[k].len() > 0 {
            assert(!(parse_text(s)->0[k][0] is Whitespace));
        }
        lemma_converted_line(s, k, from, to);
    }
    assert forall|k: int, m: int| 0 <= k < big_l.len() && 0 <= m < big_l[k].len() implies #[trigger] big_l[k][m]
        != '\n' by {
        assert(parse_line(big_l[k]) is Some);
    }
    lemma_lines_join(big_l);
    let out_lines = lines(join_lines(big_l));
    assert(converted_text(ls, from, to) == join_lines(big_l));
    assert forall|k: int| 0 <= k < out_lines.len() implies #[trigger] parse_line(out_lines[k]) is Some by {
        assert(out_lines[k] == big_l[k]);
        assert(parse_line(big_l[k]) is Some);
    }
    let out = parse_text(join_lines(big_l))->0;
    assert forall|k: int| 0 <= k < ls.len() implies #[trigger] whitespace_tokens(ls[k]) == if k
        < out.len() {
        whitespace_tokens(out[k])
    } else {
        0
    } by {
        assert(parse_line(big_l[k]) is Some);
        if k < out.len() {
            assert(out_lines[k] == big_l[k]);
            assert(out[k] == parse_line(out_lines[k])->0);
        }
    }
}

} // verus!
