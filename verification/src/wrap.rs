//! Greedy word wrapping by display width.

use vstd::prelude::*;
use vstd::string::StringExecFns;
use crate::text::{chars_of, char_columns, char_is_white_space, char_width, display_width, is_white_space, push_char, str_width, to_owned_string};

verus! {

/// Words finished so far, and the word being read, after reading `s`.
pub open spec fn split_state(s: Seq<char>) -> (Seq<Seq<char>>, Seq<char>)
    decreases s.len(),
{
    if s.len() == 0 {
        (Seq::empty(), Seq::empty())
    } else {
        let prev = split_state(s.drop_last());
        let c = s.last();
        if is_white_space(c) {
            if prev.1.len() > 0 {
                (prev.0.push(prev.1), Seq::empty())
            } else {
                prev
            }
        } else {
            (prev.0, prev.1.push(c))
        }
    }
}

/// The maximal runs of non-white-space characters of `s`, in order
/// (what `str::split_whitespace` yields).
pub open spec fn words_of(s: Seq<char>) -> Seq<Seq<char>> {
    let st = split_state(s);
    if st.1.len() > 0 {
        st.0.push(st.1)
    } else {
        st.0
    }
}

/// Columns of a character, a control character counting as none.
pub open spec fn char_cols(c: char) -> nat {
    match char_width(c) {
        Some(w) => w as nat,
        None => 0,
    }
}

/// State while a too-long word is cut into pieces: lines already done,
/// the piece being filled, and its width.
pub struct BreakState {
    pub lines: Seq<Seq<char>>,
    pub buf: Seq<char>,
    pub width: nat,
}

/// One character of a too-long word: it starts a new piece when it would
/// push the current one past `max` columns.
pub open spec fn break_step(st: BreakState, c: char, max: nat) -> BreakState {
    let cw = char_cols(c);
    if st.width + cw > max {
        BreakState { lines: st.lines.push(st.buf), buf: seq![c], width: cw }
    } else {
        BreakState { lines: st.lines, buf: st.buf.push(c), width: st.width + cw }
    }
}

/// All characters of `cs`, one `break_step` after the other.
pub open spec fn break_chars(st: BreakState, cs: Seq<char>, max: nat) -> BreakState
    decreases cs.len(),
{
    if cs.len() == 0 {
        st
    } else {
        break_step(break_chars(st, cs.drop_last(), max), cs.last(), max)
    }
}

/// State of the wrapping: lines already done, the line being filled and
/// its width as the wrapping counts it.
pub struct WrapState {
    pub lines: Seq<Seq<char>>,
    pub current: Seq<char>,
    pub width: nat,
}

/// One word of the text.  A word wider than `max` closes the current line
/// and is cut by characters; another word goes on the current line after a
/// blank if it fits, else it starts a new line.
pub open spec fn wrap_step(st: WrapState, word: Seq<char>, max: nat) -> WrapState {
    let w = display_width(word);
    if w > max {
        let lines0 = if st.current.len() > 0 { st.lines.push(st.current) } else { st.lines };
        let width0 = if st.current.len() > 0 { 0 } else { st.width };
        let b = break_chars(BreakState { lines: lines0, buf: Seq::empty(), width: 0 }, word, max);
        if b.buf.len() > 0 {
            WrapState { lines: b.lines, current: b.buf, width: b.width }
        } else {
            WrapState { lines: b.lines, current: Seq::empty(), width: width0 }
        }
    } else {
        let needed = if st.current.len() == 0 { w } else { st.width + 1 + w };
        if needed > max {
            WrapState { lines: st.lines.push(st.current), current: word, width: w }
        } else if st.current.len() == 0 {
            WrapState { lines: st.lines, current: word, width: st.width + w }
        } else {
            WrapState { lines: st.lines, current: st.current.push(' ') + word, width: st.width + 1 + w }
        }
    }
}

/// The state before any word.
pub open spec fn wrap_start() -> WrapState {
    WrapState { lines: Seq::empty(), current: Seq::empty(), width: 0 }
}

/// All words of `words`, one `wrap_step` after the other.
pub open spec fn wrap_words(words: Seq<Seq<char>>, max: nat) -> WrapState
    decreases words.len(),
{
    if words.len() == 0 {
        wrap_start()
    } else {
        wrap_step(wrap_words(words.drop_last(), max), words.last(), max)
    }
}

/// The lines of a finished wrapping: the line being filled is kept when
/// it is not empty.
pub open spec fn wrap_finish(st: WrapState) -> Seq<Seq<char>> {
    if st.current.len() > 0 {
        st.lines.push(st.current)
    } else {
        st.lines
    }
}

/// The lines that wrapping `s` to `max` columns gives.
pub open spec fn wrap_spec(s: Seq<char>, max: nat) -> Seq<Seq<char>> {
    wrap_finish(wrap_words(words_of(s), max))
}

/// Every word that splitting yields holds at least one character.
pub proof fn lemma_words_nonempty(s: Seq<char>)
    ensures
        forall|i: int| 0 <= i < words_of(s).len() ==> #[trigger] words_of(s)[i].len() > 0,
{
    lemma_split_state_nonempty(s);
}

proof fn lemma_split_state_nonempty(s: Seq<char>)
    ensures
        forall|i: int|
            0 <= i < split_state(s).0.len() ==> #[trigger] split_state(s).0[i].len() > 0,
    decreases s.len(),
{
    if s.len() > 0 {
        lemma_split_state_nonempty(s.drop_last());
        let prev = split_state(s.drop_last());
        let cur = split_state(s);
        assert forall|i: int| 0 <= i < cur.0.len() implies #[trigger] cur.0[i].len() > 0 by {
            if i < prev.0.len() {
                assert(prev.0[i].len() > 0);
            }
        }
    }
}

/// The words of `s`: its maximal runs of characters that are not white space.
pub fn split_words(s: &str) -> (words: Vec<String>)
    ensures
        words.deep_view() == words_of(s@),
{
    let cs = chars_of(s);
    let mut done: Vec<String> = Vec::new();
    let mut cur = String::new();
    let mut i: usize = 0;
    assert(cs@.take(0) =~= Seq::<char>::empty());
    while i < cs.len()
        invariant
            i <= cs@.len(),
            cs@ == s@,
            (done.deep_view(), cur@) == split_state(cs@.take(i as int)),
        decreases cs.len() - i,
    {
        let c = cs[i];
        assert(cs@.take(i + 1).drop_last() =~= cs@.take(i as int));
        assert(cs@.take(i + 1).last() == c);
        if char_is_white_space(c) {
            if !cur.as_str().is_empty() {
                let ghost before = done.deep_view();
                done.push(cur);
                cur = String::new();
                assert(done.deep_view() =~= before.push(split_state(cs@.take(i as int)).1));
            }
        } else {
            push_char(&mut cur, c);
        }
        i += 1;
    }
    assert(cs@.take(i as int) =~= s@);
    if !cur.as_str().is_empty() {
        let ghost before = done.deep_view();
        done.push(cur);
        assert(done.deep_view() =~= before.push(split_state(s@).1));
    }
    done
}

/// Cuts a word that is too wide into pieces of at most `max` columns (a
/// single character wider than that makes a piece of its own).  Finished
/// pieces go to `lines`; the last one and its width are returned.
fn break_word(lines: &mut Vec<String>, word: &str, max: usize) -> (r: (String, usize))
    ensures
        ({
            let b = break_chars(
                BreakState { lines: old(lines).deep_view(), buf: Seq::empty(), width: 0 },
                word@,
                max as nat,
            );
            &&& final(lines).deep_view() == b.lines
            &&& r.0@ == b.buf
            &&& r.1 == b.width
        }),
{
    let cs = chars_of(word);
    let ghost start = BreakState { lines: lines.deep_view(), buf: Seq::empty(), width: 0 };
    let mut buf = String::new();
    let mut bw: usize = 0;
    let mut i: usize = 0;
    assert(cs@.take(0) =~= Seq::<char>::empty());
    while i < cs.len()
        invariant
            i <= cs@.len(),
            cs@ == word@,
            ({
                let b = break_chars(start, cs@.take(i as int), max as nat);
                &&& lines.deep_view() == b.lines
                &&& buf@ == b.buf
                &&& bw == b.width
            }),
        decreases cs.len() - i,
    {
        let ch = cs[i];
        assert(cs@.take(i + 1).drop_last() =~= cs@.take(i as int));
        assert(cs@.take(i + 1).last() == ch);
        let cw: usize = match char_columns(ch) {
            Some(w) => w,
            None => 0,
        };
        let exceeds = cw > max || bw > max - cw;
        if exceeds {
            let ghost before = lines.deep_view();
            let ghost piece = buf@;
            lines.push(buf);
            assert(lines.deep_view() =~= before.push(piece));
            buf = String::new();
            bw = 0;
        }
        push_char(&mut buf, ch);
        bw = bw + cw;
        assert(exceeds ==> buf@ =~= seq![ch]);
        i += 1;
    }
    assert(cs@.take(i as int) =~= word@);
    (buf, bw)
}

/// Wraps `s` into lines of at most `max_width` columns, word by word; a word
/// that is wider on its own is cut by characters.
pub fn wrap_text(s: &str, max_width: usize) -> (lines: Vec<String>)
    ensures
        lines.deep_view() == wrap_spec(s@, max_width as nat),
{
    let words = split_words(s);
    let ghost ws = words.deep_view();
    proof {
        lemma_words_nonempty(s@);
    }
    let mut lines: Vec<String> = Vec::new();
    let mut current = String::new();
    let mut cur_w: usize = 0;
    let mut k: usize = 0;
    assert(ws.take(0) =~= Seq::<Seq<char>>::empty());
    assert(lines.deep_view() =~= Seq::<Seq<char>>::empty());
    while k < words.len()
        invariant
            k <= words@.len(),
            ws == words.deep_view(),
            ws == words_of(s@),
            ({
                let st = wrap_words(ws.take(k as int), max_width as nat);
                &&& lines.deep_view() == st.lines
                &&& current@ == st.current
                &&& cur_w == st.width
            }),
            forall|i: int| 0 <= i < ws.len() ==> #[trigger] ws[i].len() > 0,
            current@.len() == 0 ==> cur_w == 0,
        decreases words.len() - k,
    {
        let word = words[k].as_str();
        assert(ws.take(k + 1).drop_last() =~= ws.take(k as int));
        assert(ws.take(k + 1).last() == word@);
        let w = str_width(word);
        if w > max_width {
            if !current.as_str().is_empty() {
                let ghost before = lines.deep_view();
                let ghost cur = current@;
                lines.push(current);
                assert(lines.deep_view() =~= before.push(cur));
                current = String::new();
                cur_w = 0;
            }
            let (buf, bw) = break_word(&mut lines, word, max_width);
            if !buf.as_str().is_empty() {
                current = buf;
                cur_w = bw;
            }
        } else {
            let too_wide = if current.as_str().is_empty() {
                false
            } else {
                cur_w >= max_width || w >= max_width - cur_w
            };
            if too_wide {
                let ghost before = lines.deep_view();
                let ghost cur = current@;
                lines.push(current);
                assert(lines.deep_view() =~= before.push(cur));
                current = to_owned_string(word);
                cur_w = w;
            } else {
                if !current.as_str().is_empty() {
                    push_char(&mut current, ' ');
                    cur_w += 1;
                }
                current.append(word);
                cur_w += w;
            }
        }
        k += 1;
    }
    assert(ws.take(k as int) =~= ws);
    if !current.as_str().is_empty() {
        let ghost before = lines.deep_view();
        let ghost cur = current@;
        lines.push(current);
        assert(lines.deep_view() =~= before.push(cur));
    }
    lines
}

} // verus!
