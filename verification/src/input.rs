//! Reading the player's commands.

use vstd::prelude::*;
use crate::text::{chars_of, char_is_white_space, is_white_space, push_char};

verus! {

/// Number of white-space characters at the start of `s`.
pub open spec fn leading_ws(s: Seq<char>) -> nat
    decreases s.len(),
{
    if s.len() > 0 && is_white_space(s[0]) {
        1 + leading_ws(s.drop_first())
    } else {
        0
    }
}

/// Number of white-space characters at the end of `s`.
pub open spec fn trailing_ws(s: Seq<char>) -> nat
    decreases s.len(),
{
    if s.len() > 0 && is_white_space(s.last()) {
        1 + trailing_ws(s.drop_last())
    } else {
        0
    }
}

/// `s` without white space at either end (what `str::trim` gives).
pub open spec fn trim_spec(s: Seq<char>) -> Seq<char> {
    let t = s.skip(leading_ws(s) as int);
    t.take(t.len() - trailing_ws(t))
}

/// Lower-case form of `s` as `str::to_lowercase` computes it.
pub uninterp spec fn lowercase(s: Seq<char>) -> Seq<char>;

/// Calls `str::to_lowercase`; the claim is only that the result is the
/// lower-case form that `lowercase` names, a function of the text alone.
#[verifier::external_body]
fn to_lower(s: &str) -> (r: String)
    ensures
        r@ == lowercase(s@),
{
    s.to_lowercase()
}

proof fn lemma_leading_ws_bound(s: Seq<char>)
    ensures
        leading_ws(s) <= s.len(),
        forall|i: int| 0 <= i < leading_ws(s) ==> is_white_space(#[trigger] s[i]),
        leading_ws(s) < s.len() ==> !is_white_space(s[leading_ws(s) as int]),
    decreases s.len(),
{
    if s.len() > 0 && is_white_space(s[0]) {
        lemma_leading_ws_bound(s.drop_first());
        assert forall|i: int| 0 <= i < leading_ws(s) implies is_white_space(#[trigger] s[i]) by {
            if i > 0 {
                assert(s[i] == s.drop_first()[i - 1]);
            }
        }
    }
}

proof fn lemma_trailing_ws_bound(s: Seq<char>)
    ensures
        trailing_ws(s) <= s.len(),
        forall|i: int| s.len() - trailing_ws(s) <= i < s.len() ==> is_white_space(#[trigger] s[i]),
        trailing_ws(s) < s.len() ==> !is_white_space(s[s.len() - trailing_ws(s) - 1]),
    decreases s.len(),
{
    if s.len() > 0 && is_white_space(s.last()) {
        lemma_trailing_ws_bound(s.drop_last());
        assert forall|i: int| s.len() - trailing_ws(s) <= i < s.len() implies is_white_space(
            #[trigger] s[i],
        ) by {
            if i < s.len() - 1 {
                assert(s[i] == s.drop_last()[i]);
            }
        }
    }
}

/// `leading_ws` counts exactly the white space before position `k` when
/// everything before `k` is white space and position `k` is not.
proof fn lemma_leading_ws_exact(s: Seq<char>, k: int)
    requires
        0 <= k <= s.len(),
        forall|i: int| 0 <= i < k ==> is_white_space(#[trigger] s[i]),
        k < s.len() ==> !is_white_space(s[k]),
    ensures
        leading_ws(s) == k,
    decreases k,
{
    if k > 0 {
        assert forall|i: int| 0 <= i < k - 1 implies is_white_space(#[trigger] s.drop_first()[i]) by {
            assert(s.drop_first()[i] == s[i + 1]);
        }
        if k - 1 < s.drop_first().len() {
            assert(s.drop_first()[k - 1] == s[k]);
        }
        lemma_leading_ws_exact(s.drop_first(), k - 1);
    }
}

proof fn lemma_trailing_ws_exact(s: Seq<char>, k: int)
    requires
        0 <= k <= s.len(),
        forall|i: int| s.len() - k <= i < s.len() ==> is_white_space(#[trigger] s[i]),
        k < s.len() ==> !is_white_space(s[s.len() - k - 1]),
    ensures
        trailing_ws(s) == k,
    decreases k,
{
    if k > 0 {
        let d = s.drop_last();
        assert forall|i: int| d.len() - (k - 1) <= i < d.len() implies is_white_space(#[trigger] d[i]) by {
            assert(d[i] == s[i]);
        }
        if k - 1 < d.len() {
            assert(d[d.len() - (k - 1) - 1] == s[s.len() - k - 1]);
        }
        lemma_trailing_ws_exact(d, k - 1);
    }
}

/// `s` without white space at either end.
pub fn trim(s: &str) -> (r: String)
    ensures
        r@ == trim_spec(s@),
{
    let cs = chars_of(s);
    let n = cs.len();
    let mut a: usize = 0;
    while a < n && char_is_white_space(cs[a])
        invariant
            a <= n,
            n == cs@.len(),
            cs@ == s@,
            forall|i: int| 0 <= i < a ==> is_white_space(#[trigger] cs@[i]),
        decreases n - a,
    {
        a += 1;
    }
    proof {
        lemma_leading_ws_exact(s@, a as int);
    }
    let mut b: usize = n;
    while b > a && char_is_white_space(cs[b - 1])
        invariant
            a <= b <= n,
            n == cs@.len(),
            cs@ == s@,
            forall|i: int| b <= i < n ==> is_white_space(#[trigger] cs@[i]),
        decreases b - a,
    {
        b -= 1;
    }
    let ghost t = s@.skip(a as int);
    proof {
        assert forall|i: int| t.len() - (n - b) <= i < t.len() implies is_white_space(#[trigger] t[i]) by {
            assert(t[i] == s@[i + a]);
        }
        if n - b < t.len() {
            assert(t[t.len() - (n - b) - 1] == s@[b - 1]);
        }
        lemma_trailing_ws_exact(t, (n - b) as int);
    }
    let mut r = String::new();
    let mut i: usize = a;
    while i < b
        invariant
            a <= i <= b,
            b <= n,
            n == cs@.len(),
            cs@ == s@,
            r@ == s@.subrange(a as int, i as int),
        decreases b - i,
    {
        push_char(&mut r, cs[i]);
        i += 1;
        assert(r@ =~= s@.subrange(a as int, i as int));
    }
    assert(r@ =~= trim_spec(s@));
    r
}

/// The input as commands are read: without surrounding white space, in
/// lower case.
pub open spec fn normalize_spec(raw: Seq<char>) -> Seq<char> {
    lowercase(trim_spec(raw))
}

/// The input as commands are read: without surrounding white space, in
/// lower case.
pub fn normalize_input(raw: &str) -> (r: String)
    ensures
        r@ == normalize_spec(raw@),
{
    let t = trim(raw);
    to_lower(t.as_str())
}

/// A decimal digit.
pub open spec fn is_digit(c: char) -> bool {
    '0' <= c && c <= '9'
}

/// The number that a string of decimal digits writes.
pub open spec fn digits_value(s: Seq<char>) -> nat
    decreases s.len(),
{
    if s.len() == 0 {
        0
    } else {
        digits_value(s.drop_last()) * 10 + ((s.last() as int) - 48) as nat
    }
}

/// The digits of a number: `s` without a leading `+`.
pub open spec fn number_body(s: Seq<char>) -> Seq<char> {
    if s.len() > 0 && s[0] == '+' {
        s.drop_first()
    } else {
        s
    }
}

/// Every character of `s` is a decimal digit.
pub open spec fn all_digits(s: Seq<char>) -> bool {
    forall|i: int| 0 <= i < s.len() ==> is_digit(#[trigger] s[i])
}

/// The number that `s` writes as a `usize` (what `str::parse::<usize>`
/// accepts): an optional `+`, then at least one decimal digit, with a value
/// that fits.
pub open spec fn parse_usize_spec(s: Seq<char>) -> Option<nat> {
    let body = number_body(s);
    if body.len() == 0 || !all_digits(body) {
        None
    } else if digits_value(body) > usize::MAX {
        None
    } else {
        Some(digits_value(body))
    }
}

/// A longer string of digits writes a number at least as large.
proof fn lemma_digits_value_mono(s: Seq<char>, k: int)
    requires
        0 <= k <= s.len(),
        forall|i: int| 0 <= i < s.len() ==> is_digit(#[trigger] s[i]),
    ensures
        digits_value(s.take(k)) <= digits_value(s),
    decreases s.len() - k,
{
    if k < s.len() {
        lemma_digits_value_mono(s, k + 1);
        assert(s.take(k + 1).drop_last() =~= s.take(k));
        assert(s.take(k + 1).last() == s[k]);
        assert(is_digit(s[k]));
        assert(digits_value(s.take(k)) * 10 >= digits_value(s.take(k)));
    } else {
        assert(s.take(k) =~= s);
    }
}

/// Reads `s` as a `usize`, as `str::parse::<usize>` does.
pub fn parse_usize(s: &str) -> (r: Option<usize>)
    ensures
        match parse_usize_spec(s@) {
            Some(v) => r == Some(v as usize),
            None => r is None,
        },
{
    let cs = chars_of(s);
    let n = cs.len();
    let start: usize = if n > 0 && cs[0] == '+' { 1 } else { 0 };
    let ghost body = number_body(s@);
    assert(body =~= s@.skip(start as int));
    if start >= n {
        return None;
    }
    let mut k: usize = start;
    while k < n
        invariant
            start <= k <= n,
            n == cs@.len(),
            cs@ == s@,
            body == s@.skip(start as int),
            body == number_body(s@),
            forall|i: int| start <= i < k ==> is_digit(#[trigger] cs@[i]),
        decreases n - k,
    {
        if !(cs[k] >= '0' && cs[k] <= '9') {
            assert(body[k - start] == cs@[k as int]);
            assert(!is_digit(body[k - start]));
            return None;
        }
        k += 1;
    }
    assert(forall|i: int| 0 <= i < body.len() ==> is_digit(#[trigger] body[i])) by {
        assert forall|i: int| 0 <= i < body.len() implies is_digit(#[trigger] body[i]) by {
            assert(body[i] == cs@[i + start]);
        }
    }
    let mut value: usize = 0;
    let mut j: usize = start;
    assert(body.take(0) =~= Seq::<char>::empty());
    while j < n
        invariant
            start <= j <= n,
            n == cs@.len(),
            cs@ == s@,
            body == s@.skip(start as int),
            body == number_body(s@),
            forall|i: int| 0 <= i < body.len() ==> is_digit(#[trigger] body[i]),
            value == digits_value(body.take(j - start)),
        decreases n - j,
    {
        assert(body.take(j + 1 - start).drop_last() =~= body.take(j - start));
        assert(body.take(j + 1 - start).last() == cs@[j as int]);
        assert(is_digit(body[j - start]));
        let d: usize = ((cs[j] as u32) - 48) as usize;
        assert(digits_value(body.take(j + 1 - start)) == value * 10 + d);
        match value.checked_mul(10) {
            Some(m) => match m.checked_add(d) {
                Some(v) => {
                    value = v;
                },
                None => {
                    proof {
                        lemma_digits_value_mono(body, j + 1 - start);
                    }
                    return None;
                },
            },
            None => {
                proof {
                    lemma_digits_value_mono(body, j + 1 - start);
                }
                return None;
            },
        }
        j += 1;
    }
    assert(body.take(n - start) =~= body);
    Some(value)
}

/// What the player asked for.
#[derive(PartialEq, Eq, Structural, Debug, Clone, Copy)]
pub enum Command {
    /// Leave the game.
    Quit,
    /// Take the card in this slot (1 to 3).
    Pick(usize),
    /// Replace the card in this slot (1 to 3).
    Reroll(usize),
    /// Anything else.
    Invalid,
}

/// The slot number that `s` writes, when it writes one from 1 to 3.
pub open spec fn slot_number(s: Seq<char>) -> Option<nat> {
    match parse_usize_spec(s) {
        Some(n) => if 1 <= n <= 3 { Some(n) } else { None },
        None => None,
    }
}

/// The command that a normalized input line asks for: "q" quits, a slot
/// number picks, "r" and a slot number rerolls.
pub open spec fn command_spec(inp: Seq<char>) -> Command {
    if inp == "q"@ {
        Command::Quit
    } else if slot_number(inp) is Some {
        Command::Pick(slot_number(inp).unwrap() as usize)
    } else if inp.len() > 0 && inp[0] == 'r' && slot_number(inp.drop_first()) is Some {
        Command::Reroll(slot_number(inp.drop_first()).unwrap() as usize)
    } else {
        Command::Invalid
    }
}

/// The command that a normalized input line asks for.
pub fn parse_command(inp: &str) -> (c: Command)
    ensures
        c == command_spec(inp@),
{
    if crate::text::str_eq(inp, "q") {
        return Command::Quit;
    }
    if let Some(n) = parse_usize(inp) {
        if 1 <= n && n <= 3 {
            return Command::Pick(n);
        }
    }
    let cs = chars_of(inp);
    if cs.len() > 0 && cs[0] == 'r' {
        let mut rest = String::new();
        let mut i: usize = 1;
        while i < cs.len()
            invariant
                1 <= i <= cs@.len(),
                cs@ == inp@,
                rest@ == inp@.subrange(1, i as int),
            decreases cs.len() - i,
        {
            push_char(&mut rest, cs[i]);
            i += 1;
            assert(rest@ =~= inp@.subrange(1, i as int));
        }
        assert(rest@ =~= inp@.drop_first());
        if let Some(k) = parse_usize(rest.as_str()) {
            if 1 <= k && k <= 3 {
                return Command::Reroll(k);
            }
        }
    }
    Command::Invalid
}

} // verus!
