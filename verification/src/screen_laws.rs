//! What the screens show of the stages that synergies reach.

use vstd::prelude::*;
use crate::card::{
    button_spec, card_blank_spec, card_spec, desc_rows_spec, icon_rows_spec, inner_width, name_rows_spec,
    rule_spec, slot_label_spec, synergy_colour_spec, synergy_rows_spec, text_row_spec, text_width,
    tier_row_spec,
};
use crate::game::{summary_width, synergy_entry_spec};
use crate::model::AugmentView;
use crate::model::{StageView, SynergyView};
use crate::panel::{panel_inner, panel_row_spec, panel_spec, panel_status_spec, status_row_spec, status_spec};
use crate::style::{BOLD, CARD_WIDTH, DIM, GREEN, RESET, borders_spec, icon_spec, tier_color_spec};
use crate::synergy::{is_transition_spec, max_threshold, progress_spec, synergies_for_spec, synergy_bar_spec};
use crate::synergy::current_stage_spec;
use crate::text::{center_spec, decimal, join_spec, pad_right_spec};
use crate::wrap::wrap_spec;

verus! {

/// `t` occurs in `s` as a run of consecutive characters.
pub open spec fn occurs_in(t: Seq<char>, s: Seq<char>) -> bool {
    exists|i: int| 0 <= i && i + t.len() <= s.len() && #[trigger] s.subrange(i, i + t.len()) == t
}

/// Stage `j` is the active one with `count` augments held: its threshold is
/// met, and no later stage's is.
pub open spec fn is_active_stage(stages: Seq<StageView>, count: nat, j: int) -> bool {
    &&& 0 <= j < stages.len()
    &&& stages[j].threshold <= count
    &&& forall|m: int| j < m < stages.len() ==> stages[m].threshold > count
}

/// Some stage's threshold is met with `count` augments held.
pub open spec fn some_stage_met(stages: Seq<StageView>, count: nat) -> bool {
    exists|j: int| 0 <= j < stages.len() && stages[j].threshold <= count
}

/// The words that announce stage threshold `t` as active.
pub open spec fn active_words(t: nat) -> Seq<char> {
    "✓ "@ + decimal(t) + "단계 활성"@
}

proof fn lemma_occurs(a: Seq<char>, t: Seq<char>, b: Seq<char>)
    ensures
        occurs_in(t, a + t + b),
{
    let s = a + t + b;
    assert(s.subrange(a.len() as int, a.len() as int + t.len()) =~= t);
}

/// The active stage exists and is unique whenever a threshold is met, and
/// `current_stage_spec` reports it.
proof fn lemma_active_stage(stages: Seq<StageView>, count: nat)
    ensures
        some_stage_met(stages, count) <==> current_stage_spec(stages, count) is Some,
        current_stage_spec(stages, count) matches Some(j) ==> is_active_stage(stages, count, j),
{
    crate::laws::law_current_stage(stages, count);
    if some_stage_met(stages, count) {
        let j = choose|j: int| 0 <= j < stages.len() && stages[j].threshold <= count;
        assert(current_stage_spec(stages, count) is Some);
    }
}

/// The panel row of a synergy with an active stage announces that stage.
proof fn lemma_panel_row(s: SynergyView, count: nat, j: int)
    requires
        current_stage_spec(s.stages, count) == Some(j),
    ensures
        occurs_in(active_words(s.stages[j].threshold as nat), panel_row_spec(s, count)),
{
    let bar = GREEN@ + synergy_bar_spec(s.stages, count) + RESET@;
    let head = "  ◆ "@ + pad_right_spec(BOLD@ + s.name + RESET@, 18) + "  "@ + pad_right_spec(bar, 6)
        + "  "@ + DIM@ + "("@ + decimal(count) + "/"@ + decimal(max_threshold(s.stages)) + ")"@
        + RESET@ + "  "@ + GREEN@;
    let t = active_words(s.stages[j].threshold as nat);
    let line = head + t + RESET@;
    assert(line =~= "  ◆ "@ + pad_right_spec(BOLD@ + s.name + RESET@, 18) + "  "@ + pad_right_spec(bar, 6)
        + "  "@ + DIM@ + "("@ + decimal(count) + "/"@ + decimal(max_threshold(s.stages)) + ")"@
        + RESET@ + "  "@ + panel_status_spec(s.stages, count));
    let padded = pad_right_spec(line, panel_inner());
    let tail = padded.skip(line.len() as int);
    assert(padded =~= line + tail);
    let front = DIM@ + "│"@ + RESET@ + head;
    let back = RESET@ + tail + DIM@ + "│"@ + RESET@;
    assert(panel_row_spec(s, count) =~= front + t + back);
    lemma_occurs(front, t, back);
}

/// The panel names, for every synergy it lists whose count meets a stage,
/// the threshold of the active stage: the last stage whose threshold the
/// count meets.
pub proof fn law_panel_shows_active_stage(syns: Seq<SynergyView>, picked: Seq<Seq<char>>, tw: nat)
    ensures
        forall|k: int|
            0 <= k < progress_spec(syns, picked).len() ==> {
                let e = #[trigger] progress_spec(syns, picked)[k];
                let stages = syns[e.0].stages;
                some_stage_met(stages, e.1) ==> exists|j: int|
                    is_active_stage(stages, e.1, j) && occurs_in(
                        active_words(stages[j].threshold as nat),
                        panel_spec(syns, picked, tw)[k + 1],
                    )
            },
{
    let p = progress_spec(syns, picked);
    assert forall|k: int| 0 <= k < p.len() implies {
        let e = #[trigger] p[k];
        let stages = syns[e.0].stages;
        some_stage_met(stages, e.1) ==> exists|j: int|
            is_active_stage(stages, e.1, j) && occurs_in(
                active_words(stages[j].threshold as nat),
                panel_spec(syns, picked, tw)[k + 1],
            )
    } by {
        let e = p[k];
        let stages = syns[e.0].stages;
        lemma_active_stage(stages, e.1);
        if some_stage_met(stages, e.1) {
            let j = current_stage_spec(stages, e.1).unwrap();
            lemma_panel_row(syns[e.0], e.1, j);
            assert(panel_spec(syns, picked, tw)[k + 1] == panel_row_spec(syns[e.0], e.1));
        }
    }
}

/// The status line of a synergy with an active stage announces that stage.
proof fn lemma_status_row(s: SynergyView, count: nat, j: int)
    requires
        current_stage_spec(s.stages, count) == Some(j),
    ensures
        occurs_in(active_words(s.stages[j].threshold as nat), status_row_spec(s, count)),
{
    let front = "    ◆ "@ + BOLD@ + s.name + RESET@ + "  ("@ + decimal(count) + "/"@ + decimal(
        max_threshold(s.stages),
    ) + ")  "@ + GREEN@;
    let t = active_words(s.stages[j].threshold as nat);
    assert(status_row_spec(s, count) =~= front + t + RESET@);
    lemma_occurs(front, t, RESET@);
}

/// After a pick, the status line of every synergy listed whose count meets
/// a stage names the threshold of the active stage: the last stage whose
/// threshold the count meets.
pub proof fn law_status_shows_active_stage(syns: Seq<SynergyView>, picked: Seq<Seq<char>>)
    ensures
        forall|k: int|
            0 <= k < progress_spec(syns, picked).len() ==> {
                let e = #[trigger] progress_spec(syns, picked)[k];
                let stages = syns[e.0].stages;
                some_stage_met(stages, e.1) ==> exists|j: int|
                    is_active_stage(stages, e.1, j) && occurs_in(
                        active_words(stages[j].threshold as nat),
                        status_spec(syns, picked)[k + 2],
                    )
            },
{
    let p = progress_spec(syns, picked);
    assert forall|k: int| 0 <= k < p.len() implies {
        let e = #[trigger] p[k];
        let stages = syns[e.0].stages;
        some_stage_met(stages, e.1) ==> exists|j: int|
            is_active_stage(stages, e.1, j) && occurs_in(
                active_words(stages[j].threshold as nat),
                status_spec(syns, picked)[k + 2],
            )
    } by {
        let e = p[k];
        let stages = syns[e.0].stages;
        lemma_active_stage(stages, e.1);
        if some_stage_met(stages, e.1) {
            let j = current_stage_spec(stages, e.1).unwrap();
            lemma_status_row(syns[e.0], e.1, j);
            assert(status_spec(syns, picked)[k + 2] == status_row_spec(syns[e.0], e.1));
        }
    }
}

/// The final build's entry of a synergy whose count meets a stage names the
/// active stage (the last whose threshold the count meets) and, below its
/// first line, shows that stage's effect wrapped, one wrapped line per row.
pub proof fn law_summary_shows_active_stage(s: SynergyView, count: nat)
    requires
        some_stage_met(s.stages, count),
    ensures
        exists|j: int|
            {
                let entry = synergy_entry_spec(s, count);
                let wl = wrap_spec(s.stages[j].effect, summary_width());
                &&& #[trigger] is_active_stage(s.stages, count, j)
                &&& occurs_in(decimal(s.stages[j].threshold as nat) + "단계 활성)"@, entry[0])
                &&& entry.len() == wl.len() + 1
                &&& forall|r: int| 0 <= r < wl.len() ==> occurs_in(wl[r], #[trigger] entry[r + 1])
            },
{
    lemma_active_stage(s.stages, count);
    let j = current_stage_spec(s.stages, count).unwrap();
    let st = s.stages[j];
    let entry = synergy_entry_spec(s, count);
    let wl = wrap_spec(st.effect, summary_width());
    let front = "      "@ + GREEN@ + "◆ "@ + BOLD@ + s.name + RESET@ + "  ("@ + decimal(count) + "/"@
        + decimal(max_threshold(s.stages)) + ", "@;
    let t = decimal(st.threshold as nat) + "단계 활성)"@;
    assert(entry[0] =~= front + t + RESET@);
    lemma_occurs(front, t, RESET@);
    assert forall|r: int| 0 <= r < wl.len() implies occurs_in(wl[r], #[trigger] entry[r + 1]) by {
        assert(entry[r + 1] =~= ("         "@ + DIM@) + wl[r] + RESET@);
        lemma_occurs("         "@ + DIM@, wl[r], RESET@);
    }
}

/// An augment has synergies to list exactly when some synergy holds it.
proof fn lemma_synergies_for_nonempty(syns: Seq<SynergyView>, name: Seq<char>)
    ensures
        synergies_for_spec(syns, name).len() > 0 <==> exists|i: int|
            0 <= i < syns.len() && #[trigger] syns[i].augments.contains(name),
    decreases syns.len(),
{
    if syns.len() > 0 {
        let rest = syns.drop_last();
        lemma_synergies_for_nonempty(rest, name);
        if exists|i: int| 0 <= i < rest.len() && #[trigger] rest[i].augments.contains(name) {
            let i = choose|i: int| 0 <= i < rest.len() && #[trigger] rest[i].augments.contains(name);
            assert(syns[i] == rest[i]);
        }
        if exists|i: int| 0 <= i < syns.len() && #[trigger] syns[i].augments.contains(name) {
            let i = choose|i: int| 0 <= i < syns.len() && #[trigger] syns[i].augments.contains(name);
            if i < rest.len() {
                assert(syns[i] == rest[i]);
            }
        }
    }
}

/// A card has a synergy section exactly when some synergy holds the
/// augment.  Without one, the card is the card drawn with no synergies at
/// all.  With one, that card gains, just before its last blank row and
/// bottom frame, a blank row and the rows of the text "◆ 시너지: " (with the
/// transition mark for a transition augment) followed by the names of the
/// augment's synergies joined by ", ", wrapped to the card's text width.
pub proof fn law_card_synergy_section(slot: nat, aug: AugmentView, reroll_used: bool, synergies: Seq<SynergyView>)
    ensures
        ({
            let card = card_spec(slot, aug, reroll_used, synergies);
            let plain = card_spec(slot, aug, reroll_used, Seq::empty());
            let names = synergies_for_spec(synergies, aug.name);
            let n = plain.len() - 3;
            let bd = borders_spec(aug.tier);
            let tc = tier_color_spec(aug.tier);
            let text = "◆ 시너지: "@ + (if is_transition_spec(aug.name) { "전환 : "@ } else { ""@ })
                + join_spec(names, ", "@);
            let ls = wrap_spec(text, text_width());
            &&& names.len() > 0 <==> exists|i: int|
                0 <= i < synergies.len() && #[trigger] synergies[i].augments.contains(aug.name)
            &&& plain.len() >= 3
            &&& names.len() == 0 ==> card == plain
            &&& names.len() > 0 ==> {
                &&& card.len() == plain.len() + 1 + ls.len()
                &&& card.take(n) == plain.take(n)
                &&& card.skip(card.len() - 3) == plain.skip(n)
                &&& card[n] == card_blank_spec(bd, tc, inner_width())
                &&& forall|r: int|
                    0 <= r < ls.len() ==> #[trigger] card[n + 1 + r] == text_row_spec(
                        bd,
                        tc,
                        synergy_colour_spec(ls[r]),
                    )
            }
        }),
{
    lemma_synergies_for_nonempty(synergies, aug.name);
    let names = synergies_for_spec(synergies, aug.name);
    let bd = borders_spec(aug.tier);
    let tc = tier_color_spec(aug.tier);
    let blank = card_blank_spec(bd, tc, inner_width());
    let divider = rule_spec(tc, bd.div_l, bd.h, bd.div_r, inner_width());
    let top = seq![
        center_spec(slot_label_spec(slot), CARD_WIDTH as nat),
        rule_spec(tc, bd.tl, bd.h, bd.tr, inner_width()),
        blank,
    ] + icon_rows_spec(bd, tc, icon_spec(aug.tier)) + seq![
        blank,
        tier_row_spec(bd, tc, aug.tier),
        blank,
        divider,
        blank,
    ] + name_rows_spec(bd, tc, aug.name) + seq![blank, divider, blank] + desc_rows_spec(
        bd,
        tc,
        aug.description,
    );
    let bottom = seq![
        blank,
        rule_spec(tc, bd.bl, bd.h, bd.br, inner_width()),
        button_spec(slot, reroll_used, tc),
    ];
    let section = synergy_rows_spec(bd, tc, aug.name, names);
    let empty_names = synergies_for_spec(Seq::<SynergyView>::empty(), aug.name);
    assert(empty_names =~= Seq::<Seq<char>>::empty());
    assert(synergy_rows_spec(bd, tc, aug.name, empty_names) =~= Seq::<Seq<char>>::empty());
    let plain = card_spec(slot, aug, reroll_used, Seq::empty());
    let card = card_spec(slot, aug, reroll_used, synergies);
    assert(plain =~= top + bottom);
    assert(card =~= top + section + bottom);
    let n = plain.len() - 3;
    assert(n == top.len());
    if names.len() > 0 {
        assert(card.take(n) =~= plain.take(n));
        assert(card.skip(card.len() - 3) =~= plain.skip(n));
    } else {
        assert(section =~= Seq::<Seq<char>>::empty());
    }
}

} // verus!
