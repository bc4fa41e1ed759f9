//! Plain text helpers: escape stripping, display widths, padding and wrapping.

use vstd::prelude::*;
use vstd::string::StringExecFns;
use unicode_width::{UnicodeWidthChar, UnicodeWidthStr};

verus! {

/// The escape character that opens a terminal colour sequence.
pub const ESC: char = '\x1b';

/// A character in `a..=z` or `A..=Z`.
pub open spec fn is_ascii_letter(c: char) -> bool {
    ('a' <= c && c <= 'z') || ('A' <= c && c <= 'Z')
}

/// What is left of `s` once every escape sequence is removed.  An escape
/// sequence starts at `ESC` and runs up to and including the next ASCII
/// letter (or to the end of the text).  `escaping` says whether we are
/// inside such a sequence when `s` begins.
pub open spec fn strip_from(s: Seq<char>, escaping: bool) -> Seq<char>
    decreases s.len(),
{
    if s.len() == 0 {
        Seq::empty()
    } else if escaping {
        strip_from(s.drop_first(), !is_ascii_letter(s[0]))
    } else if s[0] == ESC {
        strip_from(s.drop_first(), true)
    } else {
        seq![s[0]] + strip_from(s.drop_first(), false)
    }
}

/// `s` without its terminal escape sequences.
pub open spec fn strip_ansi_spec(s: Seq<char>) -> Seq<char> {
    strip_from(s, false)
}

/// `n` blanks.
pub open spec fn spaces(n: nat) -> Seq<char> {
    Seq::new(n, |i: int| ' ')
}

/// `s` written `n` times in a row.
pub open spec fn repeat_seq(s: Seq<char>, n: nat) -> Seq<char>
    decreases n,
{
    if n == 0 {
        Seq::empty()
    } else {
        repeat_seq(s, (n - 1) as nat) + s
    }
}

/// Number of terminal columns that `s` takes, as the unicode-width crate
/// measures a string.
pub uninterp spec fn display_width(s: Seq<char>) -> nat;

/// Columns of a single character as the unicode-width crate measures it;
/// `None` for control characters.
pub uninterp spec fn char_width(c: char) -> Option<usize>;

/// Whether `c` has the Unicode `White_Space` property, which is what
/// `char::is_whitespace` decides: the controls U+0009 to U+000D, the blank,
/// U+0085, the no-break spaces and the other spaces of that property.
pub open spec fn is_white_space(c: char) -> bool {
    let u = c as u32;
    ||| 0x9 <= u <= 0xd
    ||| u == 0x20
    ||| u == 0x85
    ||| u == 0xa0
    ||| u == 0x1680
    ||| 0x2000 <= u <= 0x200a
    ||| u == 0x2028
    ||| u == 0x2029
    ||| u == 0x202f
    ||| u == 0x205f
    ||| u == 0x3000
}

/// Columns that `s` takes on screen once its escape sequences are ignored.
pub open spec fn visible_width(s: Seq<char>) -> nat {
    display_width(strip_ansi_spec(s))
}

/// Calls `UnicodeWidthStr::width` of unicode-width: the claim is only that
/// the result is the width that the crate assigns to this text, a function of
/// the characters alone.
#[verifier::external_body]
pub(crate) fn str_width(s: &str) -> (w: usize)
    ensures
        w == display_width(s@),
{
    UnicodeWidthStr::width(s)
}

/// Calls `UnicodeWidthChar::width` of unicode-width: the claim is only that
/// the result is the crate's width of this character.
#[verifier::external_body]
pub(crate) fn char_columns(c: char) -> (w: Option<usize>)
    ensures
        w == char_width(c),
{
    UnicodeWidthChar::width(c)
}

/// Calls `char::is_whitespace`, documented to answer whether the character
/// has the Unicode `White_Space` property; `is_white_space` lists that set.
#[verifier::external_body]
pub(crate) fn char_is_white_space(c: char) -> (b: bool)
    ensures
        b == is_white_space(c),
{
    c.is_whitespace()
}

/// Calls `String::push`: the character is appended to the text.
#[verifier::external_body]
pub(crate) fn push_char(s: &mut String, c: char)
    ensures
        final(s)@ == old(s)@.push(c),
{
    s.push(c);
}

/// The characters of `s`, one by one.
pub fn chars_of(s: &str) -> (v: Vec<char>)
    ensures
        v@ == s@,
{
    broadcast use vstd::string::group_string_axioms;

    let mut v: Vec<char> = Vec::new();
    for c in it: s.chars()
        invariant
            v@ == it.seq().take(it.index() as int),
            it.seq() == s@,
    {
        v.push(c);
    }
    v
}

/// Whether two texts hold the same characters.
pub fn str_eq(a: &str, b: &str) -> (r: bool)
    ensures
        r == (a@ == b@),
{
    let x = chars_of(a);
    let y = chars_of(b);
    if x.len() != y.len() {
        return false;
    }
    let mut i: usize = 0;
    while i < x.len()
        invariant
            x@ == a@,
            y@ == b@,
            x@.len() == y@.len(),
            i <= x@.len(),
            forall|j: int| 0 <= j < i ==> x@[j] == y@[j],
        decreases x.len() - i,
    {
        if x[i] != y[i] {
            return false;
        }
        i += 1;
    }
    assert(x@ =~= y@);
    true
}

/// Whether `s` begins with `prefix`.
pub fn starts_with(s: &str, prefix: &str) -> (r: bool)
    ensures
        r == (prefix@.len() <= s@.len() && s@.take(prefix@.len() as int) == prefix@),
{
    let x = chars_of(s);
    let p = chars_of(prefix);
    if p.len() > x.len() {
        return false;
    }
    let mut i: usize = 0;
    while i < p.len()
        invariant
            x@ == s@,
            p@ == prefix@,
            p@.len() <= x@.len(),
            i <= p@.len(),
            forall|j: int| 0 <= j < i ==> x@[j] == p@[j],
        decreases p.len() - i,
    {
        if x[i] != p[i] {
            assert(s@.take(prefix@.len() as int)[i as int] != prefix@[i as int]);
            return false;
        }
        i += 1;
    }
    assert(s@.take(prefix@.len() as int) =~= prefix@);
    true
}

/// A new text holding the characters of `s`.
pub fn to_owned_string(s: &str) -> (r: String)
    ensures
        r@ == s@,
{
    String::from_str(s)
}

/// `s` without its terminal escape sequences: an escape character and
/// everything after it up to and including the next ASCII letter is dropped.
pub fn strip_ansi(s: &str) -> (out: String)
    ensures
        out@ == strip_ansi_spec(s@),
{
    let cs = chars_of(s);
    let mut out = String::new();
    let mut escaping = false;
    let mut i: usize = 0;
    assert(cs@.skip(0) =~= cs@);
    while i < cs.len()
        invariant
            i <= cs@.len(),
            out@ + strip_from(cs@.skip(i as int), escaping) == strip_from(cs@, false),
        decreases cs.len() - i,
    {
        let c = cs[i];
        let ghost rest = cs@.skip(i as int);
        assert(rest.drop_first() =~= cs@.skip(i + 1));
        assert(rest[0] == c);
        if escaping {
            escaping = !(('a' <= c && c <= 'z') || ('A' <= c && c <= 'Z'));
        } else if c == ESC {
            escaping = true;
        } else {
            let ghost before = out@;
            push_char(&mut out, c);
            assert(before + (seq![c] + strip_from(cs@.skip(i + 1), false)) =~= out@ + strip_from(
                cs@.skip(i + 1),
                false,
            ));
        }
        i += 1;
    }
    assert(cs@.skip(i as int) =~= Seq::<char>::empty());
    assert(out@ + Seq::<char>::empty() =~= out@);
    out
}

/// Terminal columns of `s` once its escape sequences are ignored.
pub fn vw(s: &str) -> (w: usize)
    ensures
        w == visible_width(s@),
{
    let plain = strip_ansi(s);
    str_width(plain.as_str())
}

/// `n` blanks.
pub fn blanks(n: usize) -> (r: String)
    ensures
        r@ == spaces(n as nat),
{
    let mut r = String::new();
    let mut i: usize = 0;
    while i < n
        invariant
            i <= n,
            r@ == spaces(i as nat),
        decreases n - i,
    {
        push_char(&mut r, ' ');
        i += 1;
        assert(r@ =~= spaces(i as nat));
    }
    r
}

/// `s` written `n` times in a row.
pub fn repeat_str(s: &str, n: usize) -> (r: String)
    ensures
        r@ == repeat_seq(s@, n as nat),
{
    let mut r = String::new();
    let mut i: usize = 0;
    while i < n
        invariant
            i <= n,
            r@ == repeat_seq(s@, i as nat),
        decreases n - i,
    {
        r.append(s);
        i += 1;
    }
    r
}

/// `s` followed by enough blanks to take `total` columns; unchanged when it
/// already takes at least that many.
pub open spec fn pad_right_spec(s: Seq<char>, total: nat) -> Seq<char> {
    let w = visible_width(s);
    if w >= total {
        s
    } else {
        s + spaces((total - w) as nat)
    }
}

/// Blanks put before `s` when it is centred in `total` columns.
pub open spec fn center_left(s: Seq<char>, total: nat) -> nat {
    ((total - visible_width(s)) / 2) as nat
}

/// Blanks put after `s` when it is centred in `total` columns.
pub open spec fn center_right(s: Seq<char>, total: nat) -> nat {
    (total - visible_width(s) - center_left(s, total)) as nat
}

/// `s` centred in `total` columns (the odd blank goes to the right);
/// unchanged when it already takes at least that many.
pub open spec fn center_spec(s: Seq<char>, total: nat) -> Seq<char> {
    if visible_width(s) >= total {
        s
    } else {
        spaces(center_left(s, total)) + s + spaces(center_right(s, total))
    }
}

/// `s` followed by enough blanks to take `total` columns.
pub fn pad_right(s: &str, total: usize) -> (r: String)
    ensures
        r@ == pad_right_spec(s@, total as nat),
{
    let w = vw(s);
    if w >= total {
        to_owned_string(s)
    } else {
        let mut r = to_owned_string(s);
        let pad = blanks(total - w);
        r.append(pad.as_str());
        r
    }
}

/// `s` centred in `total` columns.
pub fn center_in(s: &str, total: usize) -> (r: String)
    ensures
        r@ == center_spec(s@, total as nat),
{
    let w = vw(s);
    if w >= total {
        return to_owned_string(s);
    }
    let left = (total - w) / 2;
    let right = total - w - left;
    let mut r = blanks(left);
    r.append(s);
    let tail = blanks(right);
    r.append(tail.as_str());
    r
}

/// The decimal digit character for `d < 10`.
pub open spec fn digit_char(d: nat) -> char {
    (48 + d) as char
}

/// The decimal notation of `n`, without leading zeros.
pub open spec fn decimal(n: nat) -> Seq<char>
    decreases n,
{
    if n < 10 {
        seq![digit_char(n)]
    } else {
        decimal(n / 10).push(digit_char(n % 10))
    }
}

/// Appends the decimal notation of `n` to `s`.
pub fn push_decimal(s: &mut String, n: usize)
    ensures
        final(s)@ == old(s)@ + decimal(n as nat),
    decreases n,
{
    if n >= 10 {
        push_decimal(s, n / 10);
    }
    let d: u8 = (n % 10) as u8;
    let c = (48u8 + d) as char;
    push_char(s, c);
    assert(decimal(n as nat) == if n < 10 { seq![digit_char(n as nat)] } else { decimal((n / 10) as nat).push(digit_char((n % 10) as nat)) });
    assert(final(s)@ =~= old(s)@ + decimal(n as nat));
}

/// The decimal notation of `n`.
pub fn usize_to_string(n: usize) -> (r: String)
    ensures
        r@ == decimal(n as nat),
{
    let mut r = String::new();
    push_decimal(&mut r, n);
    assert(r@ =~= decimal(n as nat));
    r
}

/// Position of the first occurrence of `pat` in `s` at or after `from`.
pub open spec fn find_from(s: Seq<char>, pat: Seq<char>, from: int) -> Option<int>
    decreases s.len() + 1 - from,
{
    if from < 0 || from + pat.len() > s.len() {
        None
    } else if s.subrange(from, from + pat.len()) == pat {
        Some(from)
    } else {
        find_from(s, pat, from + 1)
    }
}

/// A position that `find_from` reports holds an occurrence of `pat`.
pub proof fn lemma_find_from_bounds(s: Seq<char>, pat: Seq<char>, from: int)
    ensures
        find_from(s, pat, from) matches Some(i) ==> from <= i && i + pat.len() <= s.len()
            && s.subrange(i, i + pat.len()) == pat,
    decreases s.len() + 1 - from,
{
    if !(from < 0 || from + pat.len() > s.len()) && s.subrange(from, from + pat.len()) != pat {
        lemma_find_from_bounds(s, pat, from + 1);
    }
}

/// Position, in characters, of the first occurrence of `pat` in `s`.
pub open spec fn find_spec(s: Seq<char>, pat: Seq<char>) -> Option<int> {
    find_from(s, pat, 0)
}

/// Position, in characters, of the first occurrence of `pat` in `s`.
pub fn find_str(s: &str, pat: &str) -> (r: Option<usize>)
    ensures
        r matches Some(i) ==> find_spec(s@, pat@) == Some(i as int),
        r is None ==> find_spec(s@, pat@) is None,
{
    let cs = chars_of(s);
    let ps = chars_of(pat);
    if ps.len() > cs.len() {
        return None;
    }
    let n = cs.len();
    let last = n - ps.len();
    let mut i: usize = 0;
    while i <= last
        invariant
            cs@ == s@,
            ps@ == pat@,
            ps@.len() <= cs@.len(),
            n == cs@.len(),
            last == cs@.len() - ps@.len(),
            i <= last + 1,
            find_spec(s@, pat@) == find_from(s@, pat@, i as int),
        decreases last + 1 - i,
    {
        let mut j: usize = 0;
        let mut same = true;
        while j < ps.len()
            invariant
                cs@ == s@,
                ps@ == pat@,
                i <= last,
                n == cs@.len(),
                ps@.len() <= cs@.len(),
                last == cs@.len() - ps@.len(),
                j <= ps@.len(),
                same == (forall|k: int| 0 <= k < j ==> cs@[i + k] == ps@[k]),
            decreases ps.len() - j,
        {
            if cs[i + j] != ps[j] {
                same = false;
            }
            j += 1;
        }
        if same {
            assert(s@.subrange(i as int, i + pat@.len()) =~= pat@);
            return Some(i);
        }
        assert(s@.subrange(i as int, i + pat@.len()) != pat@) by {
            let k = choose|k: int| 0 <= k < j && cs@[i + k] != ps@[k];
            assert(s@.subrange(i as int, i + pat@.len())[k] != pat@[k]);
        }
        if i == last {
            assert(find_from(s@, pat@, (i + 1) as int) is None);
            return None;
        }
        i += 1;
    }
    None
}

/// `list` joined with `sep` between consecutive items.
pub open spec fn join_spec(list: Seq<Seq<char>>, sep: Seq<char>) -> Seq<char>
    decreases list.len(),
{
    if list.len() == 0 {
        Seq::empty()
    } else if list.len() == 1 {
        list[0]
    } else {
        join_spec(list.drop_last(), sep) + sep + list.last()
    }
}

/// `list` joined with `sep` between consecutive items.
pub fn join_strs(list: &Vec<&str>, sep: &str) -> (r: String)
    ensures
        r@ == join_spec(list@.map_values(|x: &str| x@), sep@),
{
    let ghost items = list@.map_values(|x: &str| x@);
    let mut r = String::new();
    let mut i: usize = 0;
    assert(items.take(0) =~= Seq::<Seq<char>>::empty());
    while i < list.len()
        invariant
            i <= list@.len(),
            items == list@.map_values(|x: &str| x@),
            r@ == join_spec(items.take(i as int), sep@),
        decreases list.len() - i,
    {
        assert(items.take(i + 1).drop_last() =~= items.take(i as int));
        assert(items.take(i + 1).last() == list@[i as int]@);
        if i != 0 {
            r.append(sep);
        } else {
            assert(items.take(1)[0] == list@[0]@);
            assert(r@ + list@[0]@ =~= list@[0]@);
        }
        r.append(list[i]);
        i += 1;
    }
    assert(items.take(i as int) =~= items);
    r
}

} // verus!
