//! Properties that hold of the library as a whole.

use vstd::prelude::*;
use crate::text::{
    ESC, is_ascii_letter, center_left, center_right, center_spec, is_white_space, spaces, strip_ansi_spec, strip_from,
    visible_width,
};
use crate::synergy::{
    count_held, current_stage_spec, lemma_count_held_bound, max_threshold, progress_spec,
    synergy_bar_spec,
};
use crate::model::{StageView, SynergyView};
use crate::card::{lemma_max_len, max_len, normalized_spec, stack_spec, tier_blank_spec};
use crate::model::AugmentView;
use crate::draw::{
    any_eligible, chaos_transition, draw_step, draws_reach, eligible, gold_transition,
    is_special_name, pandora_name, prism_transition, special_outcome,
};
use crate::synergy::is_transition_spec;
use crate::game::{
    RerollOutcome, commit_outcome, deal_outcome, in_round_pool, lemma_pool_positions,
    pool_positions, reroll_eligible, reroll_outcome,
};
use crate::model::names_of;
use crate::wrap::{BreakState, break_chars, split_state, words_of, wrap_spec, wrap_step, wrap_words};

verus! {

proof fn lemma_strip_no_escape(s: Seq<char>, escaping: bool)
    ensures
        !strip_from(s, escaping).contains(ESC),
    decreases s.len(),
{
    if s.len() > 0 {
        if escaping {
            lemma_strip_no_escape(s.drop_first(), !crate::text::is_ascii_letter(s[0]));
        } else if s[0] == ESC {
            lemma_strip_no_escape(s.drop_first(), true);
        } else {
            lemma_strip_no_escape(s.drop_first(), false);
            let rest = strip_from(s.drop_first(), false);
            assert forall|i: int| 0 <= i < (seq![s[0]] + rest).len() implies (seq![s[0]] + rest)[i]
                != ESC by {
                if i > 0 {
                    assert((seq![s[0]] + rest)[i] == rest[i - 1]);
                    assert(rest.contains(rest[i - 1]));
                }
            }
        }
    }
}

proof fn lemma_strip_plain(s: Seq<char>)
    requires
        !s.contains(ESC),
    ensures
        strip_from(s, false) == s,
    decreases s.len(),
{
    if s.len() > 0 {
        assert(s[0] != ESC) by {
            assert(s.contains(s[0]));
        }
        assert(!s.drop_first().contains(ESC)) by {
            if s.drop_first().contains(ESC) {
                let i = choose|i: int| 0 <= i < s.drop_first().len() && s.drop_first()[i] == ESC;
                assert(s[i + 1] == ESC);
            }
        }
        lemma_strip_plain(s.drop_first());
        assert(seq![s[0]] + s.drop_first() =~= s);
    }
}

/// Stripping escape sequences leaves no escape character, so stripping
/// twice is stripping once; text without an escape character is left as it
/// is.
pub proof fn law_strip_ansi(s: Seq<char>)
    ensures
        !strip_ansi_spec(s).contains(ESC),
        strip_ansi_spec(strip_ansi_spec(s)) == strip_ansi_spec(s),
        !s.contains(ESC) ==> strip_ansi_spec(s) == s,
{
    lemma_strip_no_escape(s, false);
    lemma_strip_plain(strip_ansi_spec(s));
    if !s.contains(ESC) {
        lemma_strip_plain(s);
    }
}

/// `idx` picks the characters of `a` out of `b`: one position of `b` per
/// character of `a`, each holding that character, in increasing order.
pub open spec fn picks_out(a: Seq<char>, b: Seq<char>, idx: Seq<int>) -> bool {
    &&& idx.len() == a.len()
    &&& forall|k: int| 0 <= k < idx.len() ==> 0 <= #[trigger] idx[k] < b.len() && a[k] == b[idx[k]]
    &&& forall|k1: int, k2: int| 0 <= k1 < k2 < idx.len() ==> #[trigger] idx[k1] < #[trigger] idx[k2]
}

/// `a` is `b` with some characters left out.
pub open spec fn is_subsequence(a: Seq<char>, b: Seq<char>) -> bool {
    exists|idx: Seq<int>| picks_out(a, b, idx)
}

/// The positions of `s` that stripping keeps.
proof fn lemma_strip_positions(s: Seq<char>, escaping: bool) -> (idx: Seq<int>)
    ensures
        picks_out(strip_from(s, escaping), s, idx),
    decreases s.len(),
{
    if s.len() == 0 {
        Seq::empty()
    } else {
        let r = s.drop_first();
        let next = if escaping {
            !crate::text::is_ascii_letter(s[0])
        } else {
            s[0] == ESC
        };
        let sub = lemma_strip_positions(r, next);
        let shifted = sub.map_values(|i: int| i + 1);
        if escaping || s[0] == ESC {
            assert(picks_out(strip_from(s, escaping), s, shifted));
            shifted
        } else {
            let idx = seq![0int] + shifted;
            let out = strip_from(s, escaping);
            assert(out =~= seq![s[0]] + strip_from(r, false));
            assert forall|k: int| 0 <= k < idx.len() implies 0 <= #[trigger] idx[k] < s.len() && out[k]
                == s[idx[k]] by {
                if k > 0 {
                    assert(idx[k] == sub[k - 1] + 1);
                }
            }
            assert forall|k1: int, k2: int| 0 <= k1 < k2 < idx.len() implies #[trigger] idx[k1]
                < #[trigger] idx[k2] by {
                if k1 > 0 {
                    assert(idx[k1] == sub[k1 - 1] + 1);
                }
                assert(idx[k2] == sub[k2 - 1] + 1);
            }
            idx
        }
    }
}

/// Stripping only leaves characters out: what is left is the text's own
/// characters, in their order.
pub proof fn law_strip_keeps_order(s: Seq<char>)
    ensures
        is_subsequence(strip_ansi_spec(s), s),
{
    let idx = lemma_strip_positions(s, false);
    assert(picks_out(strip_ansi_spec(s), s, idx));
}

/// Whether stripping is inside an escape sequence once it has read `s`,
/// having started inside one when `escaping` holds.
spec fn escaping_after(s: Seq<char>, escaping: bool) -> bool
    decreases s.len(),
{
    if s.len() == 0 {
        escaping
    } else if escaping {
        escaping_after(s.drop_first(), !is_ascii_letter(s[0]))
    } else {
        escaping_after(s.drop_first(), s[0] == ESC)
    }
}

/// `s` holds no ASCII letter.
pub open spec fn no_letter(s: Seq<char>) -> bool {
    forall|j: int| 0 <= j < s.len() ==> !is_ascii_letter(#[trigger] s[j])
}

/// `s` ends inside an escape sequence: some escape character in it is
/// followed by no ASCII letter.
pub open spec fn ends_inside_escape(s: Seq<char>) -> bool {
    exists|i: int| 0 <= i < s.len() && s[i] == ESC && #[trigger] no_letter(s.subrange(i + 1, s.len() as int))
}

proof fn lemma_no_letter_first(s: Seq<char>)
    requires
        s.len() > 0,
    ensures
        no_letter(s) == (!is_ascii_letter(s[0]) && no_letter(s.drop_first())),
{
    if !is_ascii_letter(s[0]) && no_letter(s.drop_first()) {
        assert forall|j: int| 0 <= j < s.len() implies !is_ascii_letter(#[trigger] s[j]) by {
            if j > 0 {
                assert(s[j] == s.drop_first()[j - 1]);
            }
        }
    }
    if no_letter(s) {
        assert forall|j: int| 0 <= j < s.drop_first().len() implies !is_ascii_letter(
            #[trigger] s.drop_first()[j],
        ) by {
            assert(s.drop_first()[j] == s[j + 1]);
        }
    }
}

proof fn lemma_ends_inside_first(s: Seq<char>)
    requires
        s.len() > 0,
    ensures
        ends_inside_escape(s) == ((s[0] == ESC && no_letter(s.drop_first())) || ends_inside_escape(
            s.drop_first(),
        )),
{
    let r = s.drop_first();
    assert(s.subrange(1, s.len() as int) =~= r);
    if ends_inside_escape(r) {
        let i = choose|i: int| 0 <= i < r.len() && r[i] == ESC && #[trigger] no_letter(r.subrange(i + 1, r.len() as int));
        assert(s.subrange(i + 2, s.len() as int) =~= r.subrange(i + 1, r.len() as int));
        assert(s[i + 1] == ESC);
        assert(no_letter(s.subrange((i + 1) + 1, s.len() as int)));
        assert(ends_inside_escape(s));
    }
    if s[0] == ESC && no_letter(r) {
        assert(no_letter(s.subrange(0int + 1, s.len() as int)));
        assert(ends_inside_escape(s));
    }
    if ends_inside_escape(s) {
        let i = choose|i: int| 0 <= i < s.len() && s[i] == ESC && #[trigger] no_letter(s.subrange(i + 1, s.len() as int));
        if i > 0 {
            assert(s.subrange(i + 1, s.len() as int) =~= r.subrange((i - 1) + 1, r.len() as int));
            assert(r[i - 1] == ESC);
            assert(no_letter(r.subrange((i - 1) + 1, r.len() as int)));
            assert(ends_inside_escape(r));
        } else {
            assert(no_letter(r));
        }
    }
}

proof fn lemma_escaping_after(s: Seq<char>, escaping: bool)
    ensures
        escaping_after(s, escaping) == ((escaping && no_letter(s)) || ends_inside_escape(s)),
    decreases s.len(),
{
    if s.len() > 0 {
        let r = s.drop_first();
        lemma_no_letter_first(s);
        lemma_ends_inside_first(s);
        if escaping {
            lemma_escaping_after(r, !is_ascii_letter(s[0]));
        } else {
            lemma_escaping_after(r, s[0] == ESC);
        }
    }
}

proof fn lemma_strip_append(x: Seq<char>, y: Seq<char>, escaping: bool)
    ensures
        strip_from(x + y, escaping) == strip_from(x, escaping) + strip_from(y, escaping_after(x, escaping)),
    decreases x.len(),
{
    if x.len() == 0 {
        assert(x + y =~= y);
    } else {
        assert((x + y).drop_first() =~= x.drop_first() + y);
        assert((x + y)[0] == x[0]);
        if escaping {
            lemma_strip_append(x.drop_first(), y, !is_ascii_letter(x[0]));
        } else {
            lemma_strip_append(x.drop_first(), y, x[0] == ESC);
            if x[0] != ESC {
                assert(seq![x[0]] + (strip_from(x.drop_first(), false) + strip_from(
                    y,
                    escaping_after(x, false),
                )) =~= (seq![x[0]] + strip_from(x.drop_first(), false)) + strip_from(
                    y,
                    escaping_after(x, false),
                ));
            }
        }
    }
}

/// Stripping a joined text strips each part, as long as the first part does
/// not end inside an escape sequence.
pub proof fn law_strip_join(x: Seq<char>, y: Seq<char>)
    requires
        !ends_inside_escape(x),
    ensures
        strip_ansi_spec(x + y) == strip_ansi_spec(x) + strip_ansi_spec(y),
{
    lemma_strip_append(x, y, false);
    lemma_escaping_after(x, false);
}

/// Centring spreads the free columns evenly: the blanks on the two sides add
/// up to the columns left free, and the right side gets at most one more.
pub proof fn law_center_balance(s: Seq<char>, total: nat)
    requires
        visible_width(s) < total,
    ensures
        center_left(s, total) + center_right(s, total) == total - visible_width(s),
        center_left(s, total) <= center_right(s, total) <= center_left(s, total) + 1,
        center_spec(s, total) == spaces(center_left(s, total)) + s + spaces(center_right(s, total)),
{
}

/// A synergy bar has one cell per augment that the last stage needs, and
/// exactly as many full cells as augments held, up to that number.
pub proof fn law_synergy_bar(stages: Seq<StageView>, count: nat)
    ensures
        synergy_bar_spec(stages, count).len() == max_threshold(stages),
        forall|j: int|
            0 <= j < max_threshold(stages) ==> (synergy_bar_spec(stages, count)[j] == '█' <==> j
                < count),
{
}

/// The stage a synergy has reached is the last one whose threshold the
/// count meets: no later stage is met, and when none is reported, no
/// stage at all is met.
pub proof fn law_current_stage(stages: Seq<StageView>, count: nat)
    ensures
        current_stage_spec(stages, count) matches Some(i) ==> {
            &&& 0 <= i < stages.len()
            &&& stages[i].threshold <= count
            &&& forall|j: int| i < j < stages.len() ==> stages[j].threshold > count
        },
        current_stage_spec(stages, count) is None ==> forall|j: int|
            0 <= j < stages.len() ==> stages[j].threshold > count,
    decreases stages.len(),
{
    if stages.len() > 0 && stages.last().threshold > count {
        law_current_stage(stages.drop_last(), count);
        let rest = stages.drop_last();
        assert forall|j: int| 0 <= j < rest.len() implies rest[j] == stages[j] by {}
    }
}

/// The progress lists each synergy that the picks advance exactly once, in
/// the synergies' order, with how many picks belong to it (at least one and
/// at most all of them); a synergy that is left out has no pick.
pub proof fn law_progress(syns: Seq<SynergyView>, picked: Seq<Seq<char>>)
    ensures
        ({
            let p = progress_spec(syns, picked);
            &&& forall|k: int|
                0 <= k < p.len() ==> {
                    &&& 0 <= #[trigger] p[k].0 < syns.len()
                    &&& p[k].1 == count_held(syns[p[k].0].augments, picked)
                    &&& 0 < p[k].1 <= picked.len()
                }
            &&& forall|k1: int, k2: int| 0 <= k1 < k2 < p.len() ==> #[trigger] p[k1].0 < #[trigger] p[k2].0
            &&& forall|i: int|
                0 <= i < syns.len() && count_held(#[trigger] syns[i].augments, picked) > 0
                    ==> exists|k: int| 0 <= k < p.len() && p[k].0 == i
        }),
    decreases syns.len(),
{
    if syns.len() > 0 {
        let rest = syns.drop_last();
        law_progress(rest, picked);
        let pr = progress_spec(rest, picked);
        let p = progress_spec(syns, picked);
        lemma_count_held_bound(syns.last().augments, picked);
        assert forall|k: int| 0 <= k < pr.len() implies #[trigger] pr[k].0 < rest.len() && rest[pr[k].0]
            == syns[pr[k].0] by {}
        assert forall|k: int| 0 <= k < p.len() implies {
            &&& 0 <= #[trigger] p[k].0 < syns.len()
            &&& p[k].1 == count_held(syns[p[k].0].augments, picked)
            &&& 0 < p[k].1 <= picked.len()
        } by {
            if k < pr.len() {
                assert(p[k] == pr[k]);
                assert(rest[pr[k].0] == syns[pr[k].0]);
            }
        }
        assert forall|i: int|
            0 <= i < syns.len() && count_held(#[trigger] syns[i].augments, picked) > 0 implies exists|k: int|
            0 <= k < p.len() && p[k].0 == i by {
            if i < rest.len() {
                assert(rest[i] == syns[i]);
                let k = choose|k: int| 0 <= k < pr.len() && pr[k].0 == i;
                assert(p[k] == pr[k]);
            } else {
                assert(p[pr.len() as int].0 == i);
            }
        }
    }
}

/// Taking one name out of the picks lowers the count by one exactly when the
/// synergy holds that name.
proof fn lemma_count_held_remove(augs: Seq<Seq<char>>, picked: Seq<Seq<char>>, j: int)
    requires
        0 <= j < picked.len(),
    ensures
        count_held(augs, picked) == count_held(augs, picked.remove(j)) + if augs.contains(picked[j]) {
            1nat
        } else {
            0nat
        },
    decreases picked.len(),
{
    if j < picked.len() - 1 {
        lemma_count_held_remove(augs, picked.drop_last(), j);
        assert(picked.drop_last().remove(j) =~= picked.remove(j).drop_last());
        assert(picked.remove(j).last() == picked.last());
    } else {
        assert(picked.remove(j) =~= picked.drop_last());
    }
}

/// Picks that hold the same augments, each as often, give each synergy the
/// same count.
proof fn lemma_count_held_order(augs: Seq<Seq<char>>, p1: Seq<AugmentView>, p2: Seq<AugmentView>)
    requires
        p1.to_multiset() == p2.to_multiset(),
    ensures
        count_held(augs, names_of(p1)) == count_held(augs, names_of(p2)),
    decreases p1.len(),
{
    broadcast use vstd::seq_lib::group_to_multiset_ensures;
    if p1.len() == 0 {
        assert(p2.len() == p2.to_multiset().len());
        assert(p1.len() == p1.to_multiset().len());
        assert(names_of(p1) =~= names_of(p2));
    } else {
        let x = p1.last();
        assert(p1.contains(x)) by {
            assert(p1[p1.len() - 1] == x);
        }
        assert(p1.to_multiset().count(x) > 0);
        assert(p2.to_multiset().count(x) > 0);
        assert(p2.contains(x));
        let j = choose|j: int| 0 <= j < p2.len() && p2[j] == x;
        let q1 = p1.remove(p1.len() - 1);
        let q2 = p2.remove(j);
        assert(q1 =~= p1.drop_last());
        assert(q1.to_multiset() == q2.to_multiset());
        lemma_count_held_order(augs, q1, q2);
        assert(names_of(q1) =~= names_of(p1).drop_last());
        assert(names_of(q2) =~= names_of(p2).remove(j));
        lemma_count_held_remove(augs, names_of(p2), j);
        assert(names_of(p1).last() == x.name);
        assert(names_of(p2)[j] == x.name);
    }
}

/// The synergy progress does not depend on the order of the picks: picks
/// that hold the same augments, each as often, give the same progress.
pub proof fn law_progress_order(syns: Seq<SynergyView>, p1: Seq<AugmentView>, p2: Seq<AugmentView>)
    requires
        p1.to_multiset() == p2.to_multiset(),
    ensures
        progress_spec(syns, names_of(p1)) == progress_spec(syns, names_of(p2)),
    decreases syns.len(),
{
    if syns.len() > 0 {
        law_progress_order(syns.drop_last(), p1, p2);
        lemma_count_held_order(syns.last().augments, p1, p2);
    }
}

/// After heights are evened out, every card is as tall as the tallest, and
/// a card keeps its rows: all but its last two stay on top, those two stay
/// at the bottom, and only blank rows of its tier come between.
pub proof fn law_normalized_heights(cards: Seq<Seq<Seq<char>>>, slots: Seq<AugmentView>)
    requires
        slots.len() >= cards.len(),
        forall|i: int| 0 <= i < cards.len() && #[trigger] cards[i].len() < max_len(cards) ==> cards[i].len() >= 2,
    ensures
        ({
            let n = normalized_spec(cards, slots);
            &&& n.len() == cards.len()
            &&& forall|i: int| 0 <= i < cards.len() ==> #[trigger] n[i].len() == max_len(cards)
            &&& forall|i: int|
                #![trigger n[i]]
                0 <= i < cards.len() && cards[i].len() < max_len(cards) ==> {
                    &&& n[i].take(cards[i].len() - 2) == cards[i].take(cards[i].len() - 2)
                    &&& n[i].skip(max_len(cards) - 2) == cards[i].skip(cards[i].len() - 2)
                    &&& forall|r: int|
                        cards[i].len() - 2 <= r < max_len(cards) - 2 ==> n[i][r] == tier_blank_spec(
                            slots[i].tier,
                        )
                }
            &&& forall|i: int| 0 <= i < cards.len() && cards[i].len() == max_len(cards) ==> #[trigger] n[i] == cards[i]
        }),
{
    lemma_max_len(cards);
    let n = normalized_spec(cards, slots);
    let m = max_len(cards);
    assert forall|i: int| 0 <= i < cards.len() implies #[trigger] n[i].len() == m by {
        assert(cards[i].len() <= m);
    }
    assert forall|i: int| #![trigger n[i]] 0 <= i < cards.len() && cards[i].len() < m implies {
        &&& n[i].take(cards[i].len() - 2) == cards[i].take(cards[i].len() - 2)
        &&& n[i].skip(m - 2) == cards[i].skip(cards[i].len() - 2)
        &&& forall|r: int| cards[i].len() - 2 <= r < m - 2 ==> n[i][r] == tier_blank_spec(slots[i].tier)
    } by {
        let c = cards[i];
        let b = tier_blank_spec(slots[i].tier);
        assert(n[i] == c.take(c.len() - 2) + Seq::new((m - c.len()) as nat, |k: int| b) + c.skip(c.len() - 2));
        assert(n[i].take(c.len() - 2) =~= c.take(c.len() - 2));
        assert(n[i].skip(m - 2) =~= c.skip(c.len() - 2));
    }
}

/// Laying cards side by side gives as many rows as the tallest card has.
pub proof fn law_stack_height(cards: Seq<Seq<Seq<char>>>)
    ensures
        stack_spec(cards).len() == max_len(cards),
        forall|i: int| 0 <= i < cards.len() ==> #[trigger] cards[i].len() <= stack_spec(cards).len(),
{
    lemma_max_len(cards);
}

/// Every pick's name is among the shown names.
pub open spec fn picks_shown(seen: Set<Seq<char>>, picked: Seq<AugmentView>) -> bool {
    forall|k: int| 0 <= k < picked.len() ==> seen.contains(#[trigger] picked[k].name)
}

/// No two picks share a name.
pub open spec fn picks_distinct(picked: Seq<AugmentView>) -> bool {
    forall|i: int, j: int| 0 <= i < j < picked.len() ==> #[trigger] picked[i].name != #[trigger] picked[j].name
}

/// What a run of draws keeps: shown names only grow, earlier picks stay in
/// front, each draw adds at most one augment, and every drawn augment comes
/// from the list, is of a drawn tier, was never shown, is neither a
/// transition nor the box, and is shown afterwards; picks that were shown
/// and distinct stay so.
pub proof fn lemma_draws_reach(
    augs: Seq<AugmentView>,
    tiers: Seq<Seq<char>>,
    seen0: Set<Seq<char>>,
    picked0: Seq<AugmentView>,
    seen: Set<Seq<char>>,
    picked: Seq<AugmentView>,
)
    requires
        draws_reach(augs, tiers, seen0, picked0, seen, picked),
    ensures
        seen0.subset_of(seen),
        picked0.len() <= picked.len() <= picked0.len() + tiers.len(),
        picked.take(picked0.len() as int) == picked0,
        forall|k: int|
            picked0.len() <= k < picked.len() ==> {
                &&& augs.contains(#[trigger] picked[k])
                &&& tiers.contains(picked[k].tier)
                &&& !seen0.contains(picked[k].name)
                &&& seen.contains(picked[k].name)
                &&& !is_transition_spec(picked[k].name)
                &&& picked[k].name != pandora_name()
            },
        picks_shown(seen0, picked0) ==> picks_shown(seen, picked),
        picks_distinct(picked0) ==> picks_distinct(picked),
    decreases tiers.len(),
{
    if tiers.len() == 0 {
        assert(picked.take(picked0.len() as int) =~= picked0);
    } else {
        let (s, p) = choose|s: Set<Seq<char>>, p: Seq<AugmentView>|
            draws_reach(augs, tiers.drop_last(), seen0, picked0, s, p) && #[trigger] draw_step(
                augs,
                tiers.last(),
                s,
                p,
                seen,
                picked,
            );
        lemma_draws_reach(augs, tiers.drop_last(), seen0, picked0, s, p);
        let excluded = crate::model::names_of(p).to_set();
        assert forall|k: int| 0 <= k < tiers.len() - 1 implies tiers.drop_last()[k] == tiers[k] by {}
        if seen == s && picked == p && !any_eligible(augs, tiers.last(), s, excluded) {
            assert forall|k: int| picked0.len() <= k < picked.len() implies tiers.contains(
                #[trigger] picked[k].tier,
            ) by {
                let q = choose|q: int| 0 <= q < tiers.drop_last().len() && tiers.drop_last()[q] == picked[k].tier;
                assert(tiers[q] == picked[k].tier);
            }
        } else {
            let i = choose|i: int|
                0 <= i < augs.len() && eligible(#[trigger] augs[i], tiers.last(), s, excluded) && picked
                    == p.push(augs[i]) && seen == s.insert(augs[i].name);
            let a = augs[i];
            assert(picked.take(picked0.len() as int) =~= p.take(picked0.len() as int));
            assert forall|k: int| picked0.len() <= k < picked.len() implies {
                &&& augs.contains(#[trigger] picked[k])
                &&& tiers.contains(picked[k].tier)
                &&& !seen0.contains(picked[k].name)
                &&& seen.contains(picked[k].name)
                &&& !is_transition_spec(picked[k].name)
                &&& picked[k].name != pandora_name()
            } by {
                if k < p.len() {
                    assert(picked[k] == p[k]);
                    let q = choose|q: int| 0 <= q < tiers.drop_last().len() && tiers.drop_last()[q] == p[k].tier;
                    assert(tiers[q] == picked[k].tier);
                } else {
                    assert(picked[k] == a);
                    assert(tiers[tiers.len() - 1] == a.tier);
                    assert(!seen0.contains(a.name));
                }
            }
            if picks_distinct(picked0) {
                assert forall|x: int, y: int| 0 <= x < y < picked.len() implies #[trigger] picked[x].name
                    != #[trigger] picked[y].name by {
                    if y == p.len() {
                        assert(crate::model::names_of(p)[x] == p[x].name);
                        assert(crate::model::names_of(p).contains(p[x].name));
                        assert(excluded.contains(p[x].name));
                        assert(picked[x] == p[x]);
                    } else {
                        assert(picked[x] == p[x] && picked[y] == p[y]);
                    }
                }
            }
            if picks_shown(seen0, picked0) {
                assert forall|k: int| 0 <= k < picked.len() implies seen.contains(#[trigger] picked[k].name) by {
                    if k < p.len() {
                        assert(picked[k] == p[k]);
                        assert(s.contains(p[k].name));
                    }
                }
            }
        }
    }
}

/// Picking a special augment keeps every pick shown: when all earlier picks
/// were shown, all picks are shown afterwards, whatever the draws gave.
pub proof fn law_special_keeps_picks_shown(
    aug: AugmentView,
    augs: Seq<AugmentView>,
    seen0: Set<Seq<char>>,
    picked0: Seq<AugmentView>,
    seen: Set<Seq<char>>,
    picked: Seq<AugmentView>,
    msgs: Seq<Seq<char>>,
)
    requires
        is_special_name(aug.name),
        special_outcome(aug, augs, seen0, picked0, seen, picked, true, msgs),
        picks_shown(seen0, picked0),
    ensures
        picks_shown(seen, picked),
{
    let s1 = seen0.insert(aug.name);
    let p1 = picked0.push(aug);
    assert(picks_shown(s1, p1)) by {
        assert forall|k: int| 0 <= k < p1.len() implies s1.contains(#[trigger] p1[k].name) by {
            if k < picked0.len() {
                assert(p1[k] == picked0[k]);
            }
        }
    }
    if aug.name == gold_transition() {
        lemma_draws_reach(augs, seq!["gold"@], s1, p1, seen, picked);
    } else if aug.name == prism_transition() {
        lemma_draws_reach(augs, seq!["prism"@], s1, p1, seen, picked);
    } else if aug.name == chaos_transition() {
        let tiers = choose|tiers: Seq<Seq<char>>|
            tiers.len() == 2 && crate::draw::is_tier_name(tiers[0]) && crate::draw::is_tier_name(tiers[1])
                && #[trigger] draws_reach(augs, tiers, s1, p1, seen, picked);
        lemma_draws_reach(augs, tiers, s1, p1, seen, picked);
    } else {
        let s2 = s1 + crate::model::names_of(picked0).to_set();
        let drawn = picked.drop_last();
        lemma_draws_reach(
            augs,
            Seq::new(picked0.len(), |k: int| "prism"@),
            s2,
            Seq::empty(),
            seen,
            drawn,
        );
        assert forall|k: int| 0 <= k < picked.len() implies seen.contains(#[trigger] picked[k].name) by {
            if k < drawn.len() {
                assert(picked[k] == drawn[k]);
            } else {
                assert(picked[k] == aug);
                assert(s2.contains(aug.name));
            }
        }
    }
}

/// Picking a special augment never repeats a pick: when the earlier picks
/// were distinct and the special augment was not among them, the picks stay
/// distinct, whatever the draws gave.
pub proof fn law_special_keeps_picks_distinct(
    aug: AugmentView,
    augs: Seq<AugmentView>,
    seen0: Set<Seq<char>>,
    picked0: Seq<AugmentView>,
    seen: Set<Seq<char>>,
    picked: Seq<AugmentView>,
    msgs: Seq<Seq<char>>,
)
    requires
        is_special_name(aug.name),
        special_outcome(aug, augs, seen0, picked0, seen, picked, true, msgs),
        picks_distinct(picked0),
        forall|k: int| 0 <= k < picked0.len() ==> #[trigger] picked0[k].name != aug.name,
    ensures
        picks_distinct(picked),
{
    let s1 = seen0.insert(aug.name);
    let p1 = picked0.push(aug);
    assert(picks_distinct(p1)) by {
        assert forall|i: int, j: int| 0 <= i < j < p1.len() implies #[trigger] p1[i].name
            != #[trigger] p1[j].name by {
            assert(p1[i] == picked0[i]);
            if j < picked0.len() {
                assert(p1[j] == picked0[j]);
            }
        }
    }
    if aug.name == gold_transition() {
        lemma_draws_reach(augs, seq!["gold"@], s1, p1, seen, picked);
    } else if aug.name == prism_transition() {
        lemma_draws_reach(augs, seq!["prism"@], s1, p1, seen, picked);
    } else if aug.name == chaos_transition() {
        let tiers = choose|tiers: Seq<Seq<char>>|
            tiers.len() == 2 && crate::draw::is_tier_name(tiers[0]) && crate::draw::is_tier_name(tiers[1])
                && #[trigger] draws_reach(augs, tiers, s1, p1, seen, picked);
        lemma_draws_reach(augs, tiers, s1, p1, seen, picked);
    } else {
        let s2 = s1 + crate::model::names_of(picked0).to_set();
        let drawn = picked.drop_last();
        assert(picks_distinct(Seq::<AugmentView>::empty()));
        lemma_draws_reach(
            augs,
            Seq::new(picked0.len(), |k: int| "prism"@),
            s2,
            Seq::empty(),
            seen,
            drawn,
        );
        assert forall|i: int, j: int| 0 <= i < j < picked.len() implies #[trigger] picked[i].name
            != #[trigger] picked[j].name by {
            assert(picked[i] == drawn[i]);
            if j < drawn.len() {
                assert(picked[j] == drawn[j]);
            } else {
                assert(picked[j] == aug);
                assert(s2.contains(aug.name));
                assert(drawn.take(0) =~= Seq::<AugmentView>::empty());
            }
        }
    }
}

/// No card on the table is among the picks.
pub open spec fn table_unpicked(slots: Seq<AugmentView>, picked: Seq<AugmentView>) -> bool {
    forall|j: int, k: int| 0 <= j < slots.len() && 0 <= k < picked.len() ==> #[trigger] slots[j].name != #[trigger] picked[k].name
}

/// No two cards on the table share a name.
pub open spec fn table_distinct(slots: Seq<AugmentView>) -> bool {
    forall|i: int, j: int| 0 <= i < j < slots.len() ==> #[trigger] slots[i].name != #[trigger] slots[j].name
}

/// A dealt table holds only never-shown augments of the round's tier, so
/// none of them is a pick when every pick was shown.
pub proof fn law_deal(augs: Seq<AugmentView>, tier: Seq<char>, seen: Set<Seq<char>>, slots: Seq<AugmentView>, picked: Seq<AugmentView>)
    requires
        augs.len() <= usize::MAX,
        deal_outcome(augs, tier, seen, slots),
        picks_shown(seen, picked),
    ensures
        forall|j: int| 0 <= j < slots.len() ==> #[trigger] in_round_pool(slots[j], tier, seen),
        table_unpicked(slots, picked),
{
    lemma_pool_positions(augs, tier, seen);
    let pool = pool_positions(augs, tier, seen);
    let ps = choose|ps: Seq<usize>|
        ps.len() == slots.len() && ps.no_duplicates() && forall|k: int|
            0 <= k < ps.len() ==> pool.contains(#[trigger] ps[k]) && slots[k] == augs[ps[k] as int];
    assert forall|j: int| 0 <= j < slots.len() implies #[trigger] in_round_pool(slots[j], tier, seen) by {
        assert(pool.contains(ps[j]));
    }
    assert forall|j: int, k: int| 0 <= j < slots.len() && 0 <= k < picked.len() implies #[trigger] slots[j].name
        != #[trigger] picked[k].name by {
        assert(in_round_pool(slots[j], tier, seen));
        assert(seen.contains(picked[k].name));
    }
}

/// A reroll keeps the table free of picks and of repeated names, and keeps
/// every pick shown (shown names only grow).
pub proof fn law_reroll(
    slot: nat,
    tier: Seq<char>,
    augs: Seq<AugmentView>,
    seen0: Set<Seq<char>>,
    slots0: Seq<AugmentView>,
    used0: Seq<bool>,
    seen: Set<Seq<char>>,
    slots: Seq<AugmentView>,
    used: Seq<bool>,
    r: RerollOutcome,
    picked: Seq<AugmentView>,
)
    requires
        1 <= slot <= slots0.len(),
        reroll_outcome(slot, tier, augs, seen0, slots0, used0, seen, slots, used, r),
        picks_shown(seen0, picked),
        table_unpicked(slots0, picked),
    ensures
        seen0.subset_of(seen),
        picks_shown(seen, picked),
        table_unpicked(slots, picked),
        table_distinct(slots0) ==> table_distinct(slots),
        slots.len() == slots0.len(),
{
    let i = slot - 1;
    let s1 = seen0.insert(slots0[i].name);
    if r == RerollOutcome::Replaced {
        let p = choose|p: int|
            0 <= p < augs.len() && reroll_eligible(#[trigger] augs[p], tier, s1, slots0, i) && slots
                == slots0.update(i, augs[p]);
        assert forall|j: int, k: int| 0 <= j < slots.len() && 0 <= k < picked.len() implies #[trigger] slots[j].name
            != #[trigger] picked[k].name by {
            if j == i {
                assert(seen0.contains(picked[k].name));
            } else {
                assert(slots[j] == slots0[j]);
            }
        }
        if table_distinct(slots0) {
            assert forall|x: int, y: int| 0 <= x < y < slots.len() implies #[trigger] slots[x].name
                != #[trigger] slots[y].name by {
                if x == i {
                    assert(slots0[y].name != augs[p].name);
                } else if y == i {
                    assert(slots0[x].name != augs[p].name);
                } else {
                    assert(slots[x] == slots0[x] && slots[y] == slots0[y]);
                }
            }
        }
    }
}

/// Taking a card from a table that holds no pick and adding it to the picks
/// keeps the picks distinct and all shown, whatever the special effects
/// drew: no augment is ever picked twice.
pub proof fn law_pick(
    slot: nat,
    slots: Seq<AugmentView>,
    augs: Seq<AugmentView>,
    seen0: Set<Seq<char>>,
    picked0: Seq<AugmentView>,
    seen1: Set<Seq<char>>,
    seen: Set<Seq<char>>,
    picked: Seq<AugmentView>,
    msgs: Seq<Seq<char>>,
)
    requires
        1 <= slot <= slots.len(),
        picks_shown(seen0, picked0),
        picks_distinct(picked0),
        table_unpicked(slots, picked0),
        seen1 == seen0 + names_of(slots).to_set(),
        commit_outcome(slots[slot - 1], augs, seen1, picked0, seen, picked, msgs),
    ensures
        picks_shown(seen, picked),
        picks_distinct(picked),
{
    let chosen = slots[slot - 1];
    assert(names_of(slots)[slot - 1] == chosen.name);
    assert(seen1.contains(chosen.name));
    assert(picks_shown(seen1, picked0)) by {
        assert forall|k: int| 0 <= k < picked0.len() implies seen1.contains(#[trigger] picked0[k].name) by {
            assert(seen0.contains(picked0[k].name));
        }
    }
    assert forall|k: int| 0 <= k < picked0.len() implies #[trigger] picked0[k].name != chosen.name by {
        assert(slots[slot - 1].name != picked0[k].name);
    }
    if is_special_name(chosen.name) {
        law_special_keeps_picks_shown(chosen, augs, seen1, picked0, seen, picked, msgs);
        law_special_keeps_picks_distinct(chosen, augs, seen1, picked0, seen, picked, msgs);
    } else {
        assert forall|k: int| 0 <= k < picked.len() implies seen.contains(#[trigger] picked[k].name) by {
            if k < picked0.len() {
                assert(picked[k] == picked0[k]);
            }
        }
        assert forall|x: int, y: int| 0 <= x < y < picked.len() implies #[trigger] picked[x].name
            != #[trigger] picked[y].name by {
            assert(picked[x] == picked0[x]);
            if y < picked0.len() {
                assert(picked[y] == picked0[y]);
            }
        }
    }
}

/// White space, the blank among it.
pub open spec fn is_gap(c: char) -> bool {
    is_white_space(c)
}

/// The characters of `s` that are neither blanks nor other white space, in
/// order.
pub open spec fn visible_chars(s: Seq<char>) -> Seq<char>
    decreases s.len(),
{
    if s.len() == 0 {
        Seq::empty()
    } else {
        visible_chars(s.drop_last()) + if is_gap(s.last()) {
            Seq::<char>::empty()
        } else {
            seq![s.last()]
        }
    }
}

/// The lines written one after the other.
pub open spec fn concat_lines(ls: Seq<Seq<char>>) -> Seq<char>
    decreases ls.len(),
{
    if ls.len() == 0 {
        Seq::empty()
    } else {
        concat_lines(ls.drop_last()) + ls.last()
    }
}

proof fn lemma_visible_concat(a: Seq<char>, b: Seq<char>)
    ensures
        visible_chars(a + b) == visible_chars(a) + visible_chars(b),
    decreases b.len(),
{
    if b.len() == 0 {
        assert(a + b =~= a);
        assert(visible_chars(a) + Seq::<char>::empty() =~= visible_chars(a));
    } else {
        lemma_visible_concat(a, b.drop_last());
        assert((a + b).drop_last() =~= a + b.drop_last());
        assert((a + b).last() == b.last());
        let tail = if is_gap(b.last()) { Seq::<char>::empty() } else { seq![b.last()] };
        assert(visible_chars(a) + visible_chars(b.drop_last()) + tail =~= visible_chars(a) + (
        visible_chars(b.drop_last()) + tail));
    }
}

proof fn lemma_visible_single(c: char)
    ensures
        visible_chars(seq![c]) == if is_gap(c) { Seq::<char>::empty() } else { seq![c] },
{
    assert(seq![c].drop_last() =~= Seq::<char>::empty());
    assert(seq![c].last() == c);
    assert(visible_chars(Seq::<char>::empty()) == Seq::<char>::empty());
    assert(Seq::<char>::empty() + seq![c] =~= seq![c]);
    assert(Seq::<char>::empty() + Seq::<char>::empty() =~= Seq::<char>::empty());
}

proof fn lemma_concat_push(ls: Seq<Seq<char>>, x: Seq<char>)
    ensures
        concat_lines(ls.push(x)) == concat_lines(ls) + x,
{
    assert(ls.push(x).drop_last() =~= ls);
}

proof fn lemma_split_state_text(s: Seq<char>)
    ensures
        visible_chars(concat_lines(split_state(s).0) + split_state(s).1) == visible_chars(s),
    decreases s.len(),
{
    if s.len() > 0 {
        let prev = split_state(s.drop_last());
        lemma_split_state_text(s.drop_last());
        let c = s.last();
        if is_white_space(c) {
            if prev.1.len() > 0 {
                lemma_concat_push(prev.0, prev.1);
                assert(concat_lines(prev.0.push(prev.1)) + Seq::<char>::empty() =~= concat_lines(prev.0)
                    + prev.1);
            }
            assert(visible_chars(s) =~= visible_chars(s.drop_last()));
        } else {
            assert(concat_lines(prev.0) + prev.1.push(c) =~= (concat_lines(prev.0) + prev.1) + seq![c]);
            lemma_visible_concat(concat_lines(prev.0) + prev.1, seq![c]);
            lemma_visible_single(c);
        }
    }
}

/// The words of a text, written one after the other, keep its characters
/// that are not gaps.
proof fn lemma_words_text(s: Seq<char>)
    ensures
        visible_chars(concat_lines(words_of(s))) == visible_chars(s),
{
    lemma_split_state_text(s);
    let st = split_state(s);
    if st.1.len() > 0 {
        lemma_concat_push(st.0, st.1);
    } else {
        assert(st.1 =~= Seq::<char>::empty());
        assert(concat_lines(st.0) + st.1 =~= concat_lines(st.0));
    }
}

proof fn lemma_break_text(st: BreakState, cs: Seq<char>, max: nat)
    ensures
        concat_lines(break_chars(st, cs, max).lines) + break_chars(st, cs, max).buf == concat_lines(st.lines)
            + st.buf + cs,
    decreases cs.len(),
{
    if cs.len() == 0 {
        assert(concat_lines(st.lines) + st.buf + cs =~= concat_lines(st.lines) + st.buf);
    } else {
        lemma_break_text(st, cs.drop_last(), max);
        let b = break_chars(st, cs.drop_last(), max);
        let c = cs.last();
        lemma_concat_push(b.lines, b.buf);
        assert(concat_lines(st.lines) + st.buf + cs =~= concat_lines(st.lines) + st.buf + cs.drop_last() + seq![c]);
        assert(concat_lines(b.lines) + b.buf.push(c) =~= concat_lines(b.lines) + b.buf + seq![c]);
        assert(concat_lines(b.lines.push(b.buf)) + seq![c] =~= concat_lines(b.lines) + b.buf + seq![c]);
    }
}

proof fn lemma_wrap_words_text(words: Seq<Seq<char>>, max: nat)
    ensures
        visible_chars(concat_lines(wrap_words(words, max).lines)) + visible_chars(
            wrap_words(words, max).current,
        ) == visible_chars(concat_lines(words)),
    decreases words.len(),
{
    if words.len() == 0 {
        assert(visible_chars(Seq::<char>::empty()) + visible_chars(Seq::<char>::empty()) =~= Seq::<char>::empty());
    } else {
        let ws = words.drop_last();
        lemma_wrap_words_text(ws, max);
        let st = wrap_words(ws, max);
        let word = words.last();
        lemma_visible_concat(concat_lines(ws), word);
        let vw = visible_chars(word);
        let goal = visible_chars(concat_lines(ws)) + vw;
        assert(visible_chars(concat_lines(words)) == goal);
        let vl = visible_chars(concat_lines(st.lines));
        let vc = visible_chars(st.current);
        assert(vl + vc == visible_chars(concat_lines(ws)));
        let w = crate::text::display_width(word);
        let next = wrap_step(st, word, max);
        if w > max {
            let lines0 = if st.current.len() > 0 { st.lines.push(st.current) } else { st.lines };
            assert(visible_chars(concat_lines(lines0)) == vl + vc) by {
                if st.current.len() > 0 {
                    lemma_concat_push(st.lines, st.current);
                    lemma_visible_concat(concat_lines(st.lines), st.current);
                } else {
                    assert(st.current =~= Seq::<char>::empty());
                    assert(vc =~= Seq::<char>::empty());
                    assert(vl + vc =~= vl);
                }
            }
            let b0 = BreakState { lines: lines0, buf: Seq::empty(), width: 0 };
            lemma_break_text(b0, word, max);
            let b = break_chars(b0, word, max);
            assert(concat_lines(b.lines) + b.buf == concat_lines(lines0) + word) by {
                assert(concat_lines(lines0) + Seq::<char>::empty() + word =~= concat_lines(lines0) + word);
            }
            lemma_visible_concat(concat_lines(b.lines), b.buf);
            lemma_visible_concat(concat_lines(lines0), word);
            if b.buf.len() == 0 {
                assert(b.buf =~= Seq::<char>::empty());
                assert(visible_chars(b.buf) =~= Seq::<char>::empty());
                assert(next.current =~= Seq::<char>::empty());
                assert(visible_chars(concat_lines(b.lines)) + visible_chars(b.buf) =~= visible_chars(
                    concat_lines(b.lines),
                ));
            }
            assert(vl + vc + vw =~= goal);
        } else {
            let needed = if st.current.len() == 0 { w } else { st.width + 1 + w };
            if needed > max {
                lemma_concat_push(st.lines, st.current);
                lemma_visible_concat(concat_lines(st.lines), st.current);
                assert(vl + vc + vw =~= goal);
            } else if st.current.len() == 0 {
                assert(st.current =~= Seq::<char>::empty());
                assert(vc =~= Seq::<char>::empty());
                assert(vl + vw =~= goal);
            } else {
                let spaced = st.current.push(' ');
                lemma_visible_concat(spaced, word);
                assert(spaced =~= st.current + seq![' ']);
                lemma_visible_concat(st.current, seq![' ']);
                lemma_visible_single(' ');
                assert(vc + Seq::<char>::empty() =~= vc);
                assert(vl + (vc + vw) =~= goal);
            }
        }
    }
}

/// Wrapping loses no text and adds none but blanks: leaving blanks and
/// other white space aside, the lines hold, in order, the characters of the
/// text.
pub proof fn law_wrap_keeps_text(s: Seq<char>, max: nat)
    ensures
        visible_chars(concat_lines(wrap_spec(s, max))) == visible_chars(s),
{
    lemma_words_text(s);
    let ws = words_of(s);
    lemma_wrap_words_text(ws, max);
    let st = wrap_words(ws, max);
    if st.current.len() > 0 {
        lemma_concat_push(st.lines, st.current);
        lemma_visible_concat(concat_lines(st.lines), st.current);
    } else {
        assert(visible_chars(st.current) =~= Seq::<char>::empty());
        assert(visible_chars(concat_lines(st.lines)) + visible_chars(st.current) =~= visible_chars(
            concat_lines(st.lines),
        ));
    }
}

/// A slot can be rerolled once per round: asking again once it is marked
/// changes nothing, and a replacement marks it.
pub proof fn law_reroll_once(
    slot: nat,
    tier: Seq<char>,
    augs: Seq<AugmentView>,
    seen0: Set<Seq<char>>,
    slots0: Seq<AugmentView>,
    used0: Seq<bool>,
    seen: Set<Seq<char>>,
    slots: Seq<AugmentView>,
    used: Seq<bool>,
    r: RerollOutcome,
)
    requires
        1 <= slot <= slots0.len(),
        slot <= used0.len(),
        reroll_outcome(slot, tier, augs, seen0, slots0, used0, seen, slots, used, r),
    ensures
        used0[slot - 1] ==> r == RerollOutcome::AlreadyUsed && seen == seen0 && slots == slots0 && used == used0,
        r == RerollOutcome::Replaced ==> used[slot - 1],
        used.len() == used0.len(),
{
}

} // verus!
