//! How wrapping lays words out on lines.

use vstd::prelude::*;
use crate::text::{display_width, join_spec};
use crate::wrap::{
    BreakState, WrapState, break_chars, break_step, char_cols, lemma_words_nonempty, wrap_spec, wrap_step,
    words_of, wrap_words,
};

verus! {

/// A line made of `g`: its words with one blank between each two.
pub open spec fn line_of(g: Seq<Seq<char>>) -> Seq<char> {
    join_spec(g, " "@)
}

/// Columns that the line made of `g` takes: the widths of its words, and one
/// column per blank between them.
pub open spec fn line_cols(g: Seq<Seq<char>>) -> nat
    decreases g.len(),
{
    if g.len() == 0 {
        0
    } else if g.len() == 1 {
        display_width(g[0])
    } else {
        line_cols(g.drop_last()) + 1 + display_width(g.last())
    }
}

/// The words of all groups, group after group.
pub open spec fn concat_groups(gs: Seq<Seq<Seq<char>>>) -> Seq<Seq<char>>
    decreases gs.len(),
{
    if gs.len() == 0 {
        Seq::empty()
    } else {
        concat_groups(gs.drop_last()) + gs.last()
    }
}

/// `gs` cuts `words`, in order, into lines that each fit in `max` columns,
/// and each line but the last is full: the next line's first word would not
/// have fitted after a blank.
pub open spec fn greedy_layout(words: Seq<Seq<char>>, max: nat, gs: Seq<Seq<Seq<char>>>) -> bool {
    &&& concat_groups(gs) == words
    &&& forall|k: int| 0 <= k < gs.len() ==> #[trigger] gs[k].len() > 0 && line_cols(gs[k]) <= max
    &&& forall|k: int|
        0 <= k && k + 1 < gs.len() ==> line_cols(#[trigger] gs[k]) + 1 + display_width(gs[k + 1][0]) > max
}

proof fn lemma_line_of_nonempty(g: Seq<Seq<char>>)
    requires
        g.len() > 0,
        g[0].len() > 0,
    ensures
        line_of(g).len() > 0,
{
    reveal_strlit(" ");
    if g.len() > 1 {
        assert(line_of(g) == join_spec(g.drop_last(), " "@) + " "@ + g.last());
    } else {
        assert(line_of(g) == g[0]);
    }
}

/// The state of the wrapping after a run of words, each of which fits on a
/// line of its own, as finished groups and the group being filled.
proof fn lemma_wrap_layout(ws: Seq<Seq<char>>, max: nat) -> (r: (Seq<Seq<Seq<char>>>, Seq<Seq<char>>))
    requires
        forall|i: int| 0 <= i < ws.len() ==> #[trigger] ws[i].len() > 0 && display_width(ws[i]) <= max,
    ensures
        ({
            let (gs, cur) = r;
            let st = wrap_words(ws, max);
            &&& st.lines == gs.map_values(|g: Seq<Seq<char>>| line_of(g))
            &&& st.current == line_of(cur)
            &&& st.width == line_cols(cur)
            &&& concat_groups(gs) + cur == ws
            &&& ws.len() > 0 ==> cur.len() > 0
            &&& ws.len() == 0 ==> gs.len() == 0 && cur.len() == 0
            &&& forall|i: int| 0 <= i < cur.len() ==> #[trigger] cur[i].len() > 0
            &&& forall|k: int| 0 <= k < gs.len() ==> #[trigger] gs[k].len() > 0 && line_cols(gs[k]) <= max
            &&& line_cols(cur) <= max
            &&& forall|k: int|
                0 <= k && k + 1 < gs.len() ==> line_cols(#[trigger] gs[k]) + 1 + display_width(gs[k + 1][0]) > max
            &&& gs.len() > 0 ==> line_cols(gs.last()) + 1 + display_width(cur[0]) > max
        }),
    decreases ws.len(),
{
    if ws.len() == 0 {
        let gs = Seq::<Seq<Seq<char>>>::empty();
        let cur = Seq::<Seq<char>>::empty();
        assert(gs.map_values(|g: Seq<Seq<char>>| line_of(g)) =~= Seq::<Seq<char>>::empty());
        assert(line_of(cur) =~= Seq::<char>::empty());
        assert(concat_groups(gs) + cur =~= ws);
        (gs, cur)
    } else {
        let prev = ws.drop_last();
        let (gs0, cur0) = lemma_wrap_layout(prev, max);
        let w = ws.last();
        let st0 = wrap_words(prev, max);
        assert(ws[ws.len() - 1] == w);
        assert(wrap_words(ws, max) == wrap_step(st0, w, max));
        if cur0.len() == 0 {
            assert(prev.len() == 0);
            assert(line_of(cur0) =~= Seq::<char>::empty());
            let cur = seq![w];
            assert(line_of(cur) == w);
            assert(concat_groups(gs0) =~= Seq::<Seq<char>>::empty());
            assert(concat_groups(gs0) + cur =~= ws);
            (gs0, cur)
        } else {
            lemma_line_of_nonempty(cur0);
            if line_cols(cur0) + 1 + display_width(w) > max {
                let gs = gs0.push(cur0);
                let cur = seq![w];
                assert(line_of(cur) == w);
                assert(gs.map_values(|g: Seq<Seq<char>>| line_of(g)) =~= gs0.map_values(
                    |g: Seq<Seq<char>>| line_of(g),
                ).push(line_of(cur0)));
                assert(gs.drop_last() =~= gs0);
                assert(concat_groups(gs) == concat_groups(gs0) + cur0);
                assert(concat_groups(gs) + cur =~= (concat_groups(gs0) + cur0).push(w));
                assert forall|k: int| 0 <= k && k + 1 < gs.len() implies line_cols(#[trigger] gs[k]) + 1
                    + display_width(gs[k + 1][0]) > max by {
                    if k + 1 < gs0.len() {
                        assert(gs[k] == gs0[k]);
                        assert(gs[k + 1] == gs0[k + 1]);
                    } else {
                        assert(gs[k] == gs0.last());
                        assert(gs[k + 1] == cur0);
                    }
                }
                assert forall|k: int| 0 <= k < gs.len() implies #[trigger] gs[k].len() > 0 && line_cols(
                    gs[k],
                ) <= max by {
                    if k < gs0.len() {
                        assert(gs[k] == gs0[k]);
                    }
                }
                (gs, cur)
            } else {
                let cur = cur0.push(w);
                assert(cur.drop_last() =~= cur0);
                assert(line_of(cur) == line_of(cur0) + " "@ + w);
                reveal_strlit(" ");
                assert(line_of(cur0).push(' ') + w =~= line_of(cur0) + " "@ + w);
                assert(line_cols(cur) == line_cols(cur0) + 1 + display_width(w));
                assert(concat_groups(gs0) + cur =~= (concat_groups(gs0) + cur0).push(w));
                assert(cur[0] == cur0[0]);
                (gs0, cur)
            }
        }
    }
}

/// Wrapping text whose every word fits on a line is the greedy layout of
/// its words: the lines are the words, in order, with one blank between two
/// words on a line; no line is wider than `max` columns, counting that
/// blank; and no word could have stayed on the line before its own.
pub proof fn law_wrap_greedy(s: Seq<char>, max: nat)
    requires
        forall|i: int| 0 <= i < words_of(s).len() ==> display_width(#[trigger] words_of(s)[i]) <= max,
    ensures
        exists|gs: Seq<Seq<Seq<char>>>|
            #[trigger] greedy_layout(words_of(s), max, gs) && wrap_spec(s, max) == gs.map_values(
                |g: Seq<Seq<char>>| line_of(g),
            ),
{
    let ws = words_of(s);
    lemma_words_nonempty(s);
    let (gs0, cur) = lemma_wrap_layout(ws, max);
    let st = wrap_words(ws, max);
    if cur.len() > 0 {
        lemma_line_of_nonempty(cur);
        let gs = gs0.push(cur);
        assert(gs.drop_last() =~= gs0);
        assert(wrap_spec(s, max) =~= gs.map_values(|g: Seq<Seq<char>>| line_of(g)));
        assert forall|k: int| 0 <= k && k + 1 < gs.len() implies line_cols(#[trigger] gs[k]) + 1
            + display_width(gs[k + 1][0]) > max by {
            if k + 1 < gs0.len() {
                assert(gs[k] == gs0[k]);
                assert(gs[k + 1] == gs0[k + 1]);
            } else {
                assert(gs[k] == gs0.last());
                assert(gs[k + 1] == cur);
            }
        }
        assert forall|k: int| 0 <= k < gs.len() implies #[trigger] gs[k].len() > 0 && line_cols(gs[k])
            <= max by {
            if k < gs0.len() {
                assert(gs[k] == gs0[k]);
            }
        }
        assert(greedy_layout(ws, max, gs));
    } else {
        assert(concat_groups(gs0) + cur =~= concat_groups(gs0));
        assert(wrap_spec(s, max) == gs0.map_values(|g: Seq<Seq<char>>| line_of(g)));
        assert(greedy_layout(ws, max, gs0));
    }
}

/// Columns of the characters of `p`, one by one.
pub open spec fn chars_cols(p: Seq<char>) -> nat
    decreases p.len(),
{
    if p.len() == 0 {
        0
    } else {
        chars_cols(p.drop_last()) + char_cols(p.last())
    }
}

/// The pieces, one after the other.
pub open spec fn concat_pieces(ps: Seq<Seq<char>>) -> Seq<char>
    decreases ps.len(),
{
    if ps.len() == 0 {
        Seq::empty()
    } else {
        concat_pieces(ps.drop_last()) + ps.last()
    }
}

/// `ps` cuts `word` greedily by characters into pieces of at most `max`
/// columns (a single character wider than that is a piece of its own): no
/// piece but the first is empty, and each piece is full, as the next one's
/// first character would not have fitted on it.
pub open spec fn cut_layout(word: Seq<char>, max: nat, ps: Seq<Seq<char>>) -> bool {
    &&& ps.len() > 0
    &&& concat_pieces(ps) == word
    &&& forall|k: int| 0 < k < ps.len() ==> #[trigger] ps[k].len() > 0
    &&& forall|k: int| 0 <= k < ps.len() ==> chars_cols(#[trigger] ps[k]) <= max || ps[k].len() == 1
    &&& forall|k: int|
        0 <= k && k + 1 < ps.len() ==> chars_cols(#[trigger] ps[k]) + char_cols(ps[k + 1][0]) > max
}

proof fn lemma_cut(lines0: Seq<Seq<char>>, cs: Seq<char>, max: nat) -> (ps: Seq<Seq<char>>)
    ensures
        cut_layout(cs, max, ps),
        ({
            let b = break_chars(BreakState { lines: lines0, buf: Seq::empty(), width: 0 }, cs, max);
            &&& b.lines == lines0 + ps.drop_last()
            &&& b.buf == ps.last()
            &&& b.width == chars_cols(ps.last())
        }),
    decreases cs.len(),
{
    if cs.len() == 0 {
        let ps = seq![Seq::<char>::empty()];
        assert(ps.drop_last() =~= Seq::<Seq<char>>::empty());
        assert(concat_pieces(ps.drop_last()) == Seq::<char>::empty());
        assert(concat_pieces(ps) == concat_pieces(ps.drop_last()) + ps.last());
        assert(concat_pieces(ps) =~= cs);
        assert(lines0 + ps.drop_last() =~= lines0);
        ps
    } else {
        let c = cs.last();
        let ps0 = lemma_cut(lines0, cs.drop_last(), max);
        let start = BreakState { lines: lines0, buf: Seq::<char>::empty(), width: 0 };
        let b = break_chars(start, cs.drop_last(), max);
        let cw = char_cols(c);
        assert(break_chars(start, cs, max) == break_step(b, c, max));
        if b.width + cw > max {
            let ps = ps0.push(seq![c]);
            assert(ps.drop_last() =~= ps0);
            assert(seq![c].drop_last() =~= Seq::<char>::empty());
            assert(chars_cols(seq![c].drop_last()) == 0);
            assert(chars_cols(seq![c]) == cw);
            assert(concat_pieces(ps) =~= cs);
            assert(lines0 + ps.drop_last() =~= (lines0 + ps0.drop_last()).push(ps0.last()));
            assert forall|k: int| 0 <= k && k + 1 < ps.len() implies chars_cols(#[trigger] ps[k])
                + char_cols(ps[k + 1][0]) > max by {
                if k + 1 < ps0.len() {
                    assert(ps[k] == ps0[k] && ps[k + 1] == ps0[k + 1]);
                }
            }
            assert forall|k: int| 0 <= k < ps.len() implies chars_cols(#[trigger] ps[k]) <= max
                || ps[k].len() == 1 by {
                if k < ps0.len() {
                    assert(ps[k] == ps0[k]);
                }
            }
            assert forall|k: int| 0 < k < ps.len() implies #[trigger] ps[k].len() > 0 by {
                if k < ps0.len() {
                    assert(ps[k] == ps0[k]);
                }
            }
            ps
        } else {
            let last = ps0.last().push(c);
            let ps = ps0.drop_last().push(last);
            assert(ps.drop_last() =~= ps0.drop_last());
            assert(last.drop_last() =~= ps0.last());
            assert(concat_pieces(ps0) == concat_pieces(ps0.drop_last()) + ps0.last());
            assert(concat_pieces(ps) == concat_pieces(ps0.drop_last()) + last);
            assert(cs =~= concat_pieces(ps0).push(c));
            assert(concat_pieces(ps) =~= cs);
            assert(chars_cols(last) == chars_cols(ps0.last()) + cw);
            assert forall|k: int| 0 <= k && k + 1 < ps.len() implies chars_cols(#[trigger] ps[k])
                + char_cols(ps[k + 1][0]) > max by {
                assert(ps[k] == ps0[k]);
                if k + 2 < ps.len() {
                    assert(ps[k + 1] == ps0[k + 1]);
                } else {
                    assert(ps0[k + 1] == ps0.last());
                    assert(ps0.last().len() > 0);
                    assert(ps[k + 1][0] == ps0[k + 1][0]);
                }
            }
            assert forall|k: int| 0 <= k < ps.len() implies chars_cols(#[trigger] ps[k]) <= max
                || ps[k].len() == 1 by {
                if k + 1 < ps.len() {
                    assert(ps[k] == ps0[k]);
                }
            }
            assert forall|k: int| 0 < k < ps.len() implies #[trigger] ps[k].len() > 0 by {
                if k + 1 < ps.len() {
                    assert(ps[k] == ps0[k]);
                }
            }
            ps
        }
    }
}

/// A word wider than `max` columns closes the line being filled and is cut
/// greedily by characters: each piece but the last is a line of its own,
/// and the last piece, with its columns, is the new line being filled.
pub proof fn law_wrap_cuts_wide_word(st: WrapState, word: Seq<char>, max: nat)
    requires
        word.len() > 0,
        display_width(word) > max,
    ensures
        exists|ps: Seq<Seq<char>>|
            #[trigger] cut_layout(word, max, ps) && {
                let next = wrap_step(st, word, max);
                let lines0 = if st.current.len() > 0 { st.lines.push(st.current) } else { st.lines };
                &&& next.lines == lines0 + ps.drop_last()
                &&& next.current == ps.last()
                &&& next.width == chars_cols(ps.last())
            },
{
    let lines0 = if st.current.len() > 0 { st.lines.push(st.current) } else { st.lines };
    let ps = lemma_cut(lines0, word, max);
    if ps.len() == 1 {
        assert(ps.drop_last() =~= Seq::<Seq<char>>::empty());
        assert(concat_pieces(ps.drop_last()) == Seq::<char>::empty());
        assert(concat_pieces(ps) =~= ps[0]);
    }
    assert(ps.last().len() > 0);
    assert(cut_layout(word, max, ps));
}

} // verus!
