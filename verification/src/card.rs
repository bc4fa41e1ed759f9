//! Drawing augment cards and laying them out side by side.

use vstd::prelude::*;
use vstd::string::{StringExecFns, StrSliceExecFns};
use crate::model::{Augment, AugmentView, Synergy, SynergyView};
use crate::style::{
    Borders, BordersView, BOLD, CARD_GAP, CARD_WIDTH, CYAN, DIM, GREEN, RESET, borders_for, borders_spec,
    icon_for, icon_spec, tier_color, tier_color_spec, tier_label, tier_label_spec,
};
use crate::synergy::{
    is_transition_augment, is_transition_spec, synergies_for_augment, synergies_for_spec, syn_views,
};
use crate::text::{
    blanks, center_in, center_spec, decimal, find_spec, find_str, lemma_find_from_bounds, join_spec, join_strs, pad_right,
    pad_right_spec, push_decimal, repeat_seq, repeat_str, spaces, to_owned_string,
};
use crate::wrap::{wrap_spec, wrap_text};

verus! {

/// A blank row of a card: the side frames around `inner` blanks.
pub open spec fn card_blank_spec(bd: BordersView, tc: Seq<char>, inner: nat) -> Seq<char> {
    tc + bd.v + RESET@ + spaces(inner) + tc + bd.v + RESET@
}

/// A row of a card: the side frames around `content` padded to `inner` columns.
pub open spec fn card_row_spec(bd: BordersView, tc: Seq<char>, inner: nat, content: Seq<char>) -> Seq<char> {
    tc + bd.v + RESET@ + pad_right_spec(content, inner) + tc + bd.v + RESET@
}

/// A horizontal rule of a card between the corner or joint characters
/// `left` and `right`.
pub open spec fn rule_spec(tc: Seq<char>, left: Seq<char>, h: Seq<char>, right: Seq<char>, inner: nat) -> Seq<char> {
    tc + left + repeat_seq(h, inner) + right + RESET@
}

/// A blank row of a card.
pub fn card_blank(bd: &Borders, tc: &str, inner: usize) -> (r: String)
    ensures
        r@ == card_blank_spec(bd@, tc@, inner as nat),
{
    let mut r = to_owned_string(tc);
    r.append(bd.v);
    r.append(RESET);
    let gap = blanks(inner);
    r.append(gap.as_str());
    r.append(tc);
    r.append(bd.v);
    r.append(RESET);
    r
}

/// A row of a card holding `content`, padded to `inner` columns.
pub fn card_row(bd: &Borders, tc: &str, inner: usize, content: &str) -> (r: String)
    ensures
        r@ == card_row_spec(bd@, tc@, inner as nat, content@),
{
    let padded = pad_right(content, inner);
    let mut r = to_owned_string(tc);
    r.append(bd.v);
    r.append(RESET);
    r.append(padded.as_str());
    r.append(tc);
    r.append(bd.v);
    r.append(RESET);
    r
}

/// A horizontal rule of a card.
fn card_rule(tc: &str, left: &str, h: &str, right: &str, inner: usize) -> (r: String)
    ensures
        r@ == rule_spec(tc@, left@, h@, right@, inner as nat),
{
    let mut r = to_owned_string(tc);
    r.append(left);
    let line = repeat_str(h, inner);
    r.append(line.as_str());
    r.append(right);
    r.append(RESET);
    r
}

/// Columns inside a card's side frames.
pub open spec fn inner_width() -> nat {
    (CARD_WIDTH - 2) as nat
}

/// The label above a card: its slot number in brackets, bold.
pub open spec fn slot_label_spec(slot: nat) -> Seq<char> {
    BOLD@ + "[ "@ + decimal(slot) + " ]"@ + RESET@
}

/// The rows that show a tier's icon, each centred in its colour.
pub open spec fn icon_rows_spec(bd: BordersView, tc: Seq<char>, icon: Seq<Seq<char>>) -> Seq<Seq<char>> {
    Seq::new(
        icon.len(),
        |i: int| card_row_spec(bd, tc, inner_width(), center_spec(tc + icon[i] + RESET@, inner_width())),
    )
}

/// The row that names the tier.
pub open spec fn tier_row_spec(bd: BordersView, tc: Seq<char>, tier: Seq<char>) -> Seq<char> {
    card_row_spec(
        bd,
        tc,
        inner_width(),
        center_spec(tc + "─ "@ + tier_label_spec(tier) + " ─"@ + RESET@, inner_width()),
    )
}

/// The rows of an augment's name: wrapped two columns inside the frame,
/// each centred and bold.
pub open spec fn name_rows_spec(bd: BordersView, tc: Seq<char>, name: Seq<char>) -> Seq<Seq<char>> {
    let ls = wrap_spec(name, (inner_width() - 2) as nat);
    Seq::new(
        ls.len(),
        |i: int| card_row_spec(bd, tc, inner_width(), center_spec(BOLD@ + ls[i] + RESET@, inner_width())),
    )
}

/// Columns given to the description and synergy text.
pub open spec fn text_width() -> nat {
    (inner_width() - 4) as nat
}

/// A row of indented text, dimmed for the description.
pub open spec fn text_row_spec(bd: BordersView, tc: Seq<char>, coloured: Seq<char>) -> Seq<char> {
    card_row_spec(bd, tc, inner_width(), "  "@ + pad_right_spec(coloured, text_width() + 2))
}

/// The rows of an augment's description: wrapped, dim, indented by two.
pub open spec fn desc_rows_spec(bd: BordersView, tc: Seq<char>, desc: Seq<char>) -> Seq<Seq<char>> {
    let ls = wrap_spec(desc, text_width());
    Seq::new(ls.len(), |i: int| text_row_spec(bd, tc, DIM@ + ls[i] + RESET@))
}

/// The marker of a transition augment in the synergy line.
pub open spec fn transition_mark() -> Seq<char> {
    "전환 : "@
}

/// The text listing the synergies of an augment.
pub open spec fn synergy_text_spec(name: Seq<char>, syns: Seq<Seq<char>>) -> Seq<char> {
    "◆ 시너지: "@ + (if is_transition_spec(name) { transition_mark() } else { ""@ }) + join_spec(
        syns,
        ", "@,
    )
}

/// A line of synergy text in green, with the first transition marker in cyan.
pub open spec fn synergy_colour_spec(tl: Seq<char>) -> Seq<char> {
    match find_spec(tl, transition_mark()) {
        Some(i) => GREEN@ + tl.take(i) + CYAN@ + transition_mark() + GREEN@ + tl.skip(
            i + transition_mark().len(),
        ) + RESET@,
        None => GREEN@ + tl + RESET@,
    }
}

/// The synergy section of a card: nothing when the augment belongs to no
/// synergy, else a blank row and the wrapped synergy text.
pub open spec fn synergy_rows_spec(bd: BordersView, tc: Seq<char>, name: Seq<char>, syns: Seq<Seq<char>>) -> Seq<Seq<char>> {
    if syns.len() == 0 {
        Seq::empty()
    } else {
        let ls = wrap_spec(synergy_text_spec(name, syns), text_width());
        seq![card_blank_spec(bd, tc, inner_width())] + Seq::new(
            ls.len(),
            |i: int| text_row_spec(bd, tc, synergy_colour_spec(ls[i])),
        )
    }
}

/// The button under a card: its reroll key, or a note that it was used.
pub open spec fn button_spec(slot: nat, reroll_used: bool, tc: Seq<char>) -> Seq<char> {
    center_spec(
        if reroll_used {
            DIM@ + "╰─ 리롤 사용 ─╯"@ + RESET@
        } else {
            tc + "╭─ r"@ + decimal(slot) + ": 리롤 ─╮"@ + RESET@
        },
        CARD_WIDTH as nat,
    )
}

/// Every row of the card for `aug` in slot `slot`: label, frame, icon, tier,
/// name, description, synergies and the reroll button.
pub open spec fn card_spec(slot: nat, aug: AugmentView, reroll_used: bool, synergies: Seq<SynergyView>) -> Seq<Seq<char>> {
    let bd = borders_spec(aug.tier);
    let tc = tier_color_spec(aug.tier);
    let blank = card_blank_spec(bd, tc, inner_width());
    let divider = rule_spec(tc, bd.div_l, bd.h, bd.div_r, inner_width());
    seq![
        center_spec(slot_label_spec(slot), CARD_WIDTH as nat),
        rule_spec(tc, bd.tl, bd.h, bd.tr, inner_width()),
        blank,
    ] + icon_rows_spec(bd, tc, icon_spec(aug.tier)) + seq![
        blank,
        tier_row_spec(bd, tc, aug.tier),
        blank,
        divider,
        blank,
    ] + name_rows_spec(bd, tc, aug.name) + seq![blank, divider, blank] + desc_rows_spec(
        bd,
        tc,
        aug.description,
    ) + synergy_rows_spec(bd, tc, aug.name, synergies_for_spec(synergies, aug.name)) + seq![
        blank,
        rule_spec(tc, bd.bl, bd.h, bd.br, inner_width()),
        button_spec(slot, reroll_used, tc),
    ]
}

/// Appends one line.
fn push_line(lines: &mut Vec<String>, s: String)
    ensures
        final(lines).deep_view() == old(lines).deep_view().push(s@),
{
    let ghost before = lines.deep_view();
    let ghost v = s@;
    lines.push(s);
    assert(lines.deep_view() =~= before.push(v));
}

/// Appends the icon rows.
fn push_icon_rows(lines: &mut Vec<String>, bd: &Borders, tc: &str, icon: &[&'static str; 4])
    ensures
        final(lines).deep_view() == old(lines).deep_view() + icon_rows_spec(
            bd@,
            tc@,
            icon@.map_values(|x: &str| x@),
        ),
{
    let ghost start = lines.deep_view();
    let ghost icon_v = icon@.map_values(|x: &str| x@);
    let ghost rows = icon_rows_spec(bd@, tc@, icon_v);
    let mut i: usize = 0;
    while i < 4
        invariant
            i <= 4,
            icon_v == icon@.map_values(|x: &str| x@),
            rows == icon_rows_spec(bd@, tc@, icon_v),
            lines.deep_view() == start + rows.take(i as int),
        decreases 4 - i,
    {
        let mut coloured = to_owned_string(tc);
        coloured.append(icon[i]);
        coloured.append(RESET);
        let centred = center_in(coloured.as_str(), CARD_WIDTH - 2);
        let row = card_row(bd, tc, CARD_WIDTH - 2, centred.as_str());
        assert(row@ == rows[i as int]);
        push_line(lines, row);
        assert(start + rows.take(i + 1) =~= (start + rows.take(i as int)).push(rows[i as int]));
        i += 1;
    }
    assert(rows.take(4) =~= rows);
}

/// Appends the rows of the augment's name.
fn push_name_rows(lines: &mut Vec<String>, bd: &Borders, tc: &str, name: &str)
    ensures
        final(lines).deep_view() == old(lines).deep_view() + name_rows_spec(bd@, tc@, name@),
{
    let ghost start = lines.deep_view();
    let ghost rows = name_rows_spec(bd@, tc@, name@);
    let wrapped = wrap_text(name, CARD_WIDTH - 4);
    let mut i: usize = 0;
    while i < wrapped.len()
        invariant
            i <= wrapped@.len(),
            wrapped.deep_view() == wrap_spec(name@, (inner_width() - 2) as nat),
            rows == name_rows_spec(bd@, tc@, name@),
            rows.len() == wrapped@.len(),
            lines.deep_view() == start + rows.take(i as int),
        decreases wrapped.len() - i,
    {
        let mut coloured = to_owned_string(BOLD);
        coloured.append(wrapped[i].as_str());
        coloured.append(RESET);
        let centred = center_in(coloured.as_str(), CARD_WIDTH - 2);
        let row = card_row(bd, tc, CARD_WIDTH - 2, centred.as_str());
        assert(wrapped.deep_view()[i as int] == wrapped@[i as int]@);
        assert(row@ == rows[i as int]);
        push_line(lines, row);
        assert(start + rows.take(i + 1) =~= (start + rows.take(i as int)).push(rows[i as int]));
        i += 1;
    }
    assert(rows.take(i as int) =~= rows);
}

/// Appends the rows of the augment's description.
fn push_desc_rows(lines: &mut Vec<String>, bd: &Borders, tc: &str, desc: &str)
    ensures
        final(lines).deep_view() == old(lines).deep_view() + desc_rows_spec(bd@, tc@, desc@),
{
    let ghost start = lines.deep_view();
    let ghost rows = desc_rows_spec(bd@, tc@, desc@);
    let desc_inner: usize = CARD_WIDTH - 6;
    let wrapped = wrap_text(desc, desc_inner);
    let mut i: usize = 0;
    while i < wrapped.len()
        invariant
            i <= wrapped@.len(),
            desc_inner == text_width(),
            wrapped.deep_view() == wrap_spec(desc@, text_width()),
            rows == desc_rows_spec(bd@, tc@, desc@),
            rows.len() == wrapped@.len(),
            lines.deep_view() == start + rows.take(i as int),
        decreases wrapped.len() - i,
    {
        let mut coloured = to_owned_string(DIM);
        coloured.append(wrapped[i].as_str());
        coloured.append(RESET);
        let padded = pad_right(coloured.as_str(), desc_inner + 2);
        let mut content = to_owned_string("  ");
        content.append(padded.as_str());
        let row = card_row(bd, tc, CARD_WIDTH - 2, content.as_str());
        assert(wrapped.deep_view()[i as int] == wrapped@[i as int]@);
        assert(row@ == rows[i as int]);
        push_line(lines, row);
        assert(start + rows.take(i + 1) =~= (start + rows.take(i as int)).push(rows[i as int]));
        i += 1;
    }
    assert(rows.take(i as int) =~= rows);
}

/// A line of synergy text coloured green, the first transition marker cyan.
fn synergy_colour(tl: &str) -> (r: String)
    ensures
        r@ == synergy_colour_spec(tl@),
{
    let mark = "전환 : ";
    match find_str(tl, mark) {
        Some(idx) => {
            let n = tl.unicode_len();
            let mark_len = mark.unicode_len();
            assert(idx + mark_len <= n) by {
                lemma_find_from_bounds(tl@, mark@, 0);
            }
            let before = tl.substring_char(0, idx);
            let after = tl.substring_char(idx + mark_len, n);
            let mut r = to_owned_string(GREEN);
            r.append(before);
            r.append(CYAN);
            r.append(mark);
            r.append(GREEN);
            r.append(after);
            r.append(RESET);
            assert(before@ =~= tl@.take(idx as int));
            assert(after@ =~= tl@.skip(idx + mark@.len()));
            r
        },
        None => {
            let mut r = to_owned_string(GREEN);
            r.append(tl);
            r.append(RESET);
            r
        },
    }
}

/// Appends the synergy section of the card.
fn push_synergy_rows(
    lines: &mut Vec<String>,
    bd: &Borders,
    tc: &str,
    name: &str,
    syns: &Vec<&str>,
)
    ensures
        final(lines).deep_view() == old(lines).deep_view() + synergy_rows_spec(
            bd@,
            tc@,
            name@,
            syns@.map_values(|x: &str| x@),
        ),
{
    let ghost names = syns@.map_values(|x: &str| x@);
    if syns.len() == 0 {
        assert(old(lines).deep_view() + Seq::<Seq<char>>::empty() =~= old(lines).deep_view());
        return;
    }
    let ghost start = lines.deep_view();
    let blank = card_blank(bd, tc, CARD_WIDTH - 2);
    push_line(lines, blank);
    let ghost start1 = lines.deep_view();
    let mut body = to_owned_string("◆ 시너지: ");
    if is_transition_augment(name) {
        body.append("전환 : ");
    } else {
        body.append("");
    }
    let joined = join_strs(syns, ", ");
    body.append(joined.as_str());
    assert(body@ == synergy_text_spec(name@, names));
    let desc_inner: usize = CARD_WIDTH - 6;
    let wrapped = wrap_text(body.as_str(), desc_inner);
    let ghost ls = wrap_spec(synergy_text_spec(name@, names), text_width());
    let ghost rows = Seq::new(ls.len(), |i: int| text_row_spec(bd@, tc@, synergy_colour_spec(ls[i])));
    let mut i: usize = 0;
    while i < wrapped.len()
        invariant
            i <= wrapped@.len(),
            desc_inner == text_width(),
            wrapped.deep_view() == ls,
            rows == Seq::new(ls.len(), |i: int| text_row_spec(bd@, tc@, synergy_colour_spec(ls[i]))),
            lines.deep_view() == start1 + rows.take(i as int),
        decreases wrapped.len() - i,
    {
        let coloured = synergy_colour(wrapped[i].as_str());
        let padded = pad_right(coloured.as_str(), desc_inner + 2);
        let mut content = to_owned_string("  ");
        content.append(padded.as_str());
        let row = card_row(bd, tc, CARD_WIDTH - 2, content.as_str());
        assert(wrapped.deep_view()[i as int] == wrapped@[i as int]@);
        assert(row@ == rows[i as int]);
        push_line(lines, row);
        assert(start1 + rows.take(i + 1) =~= (start1 + rows.take(i as int)).push(rows[i as int]));
        i += 1;
    }
    assert(rows.take(i as int) =~= rows);
    assert(start1 + rows =~= start + synergy_rows_spec(bd@, tc@, name@, names));
}

/// The label above a card.
fn slot_label(slot: usize) -> (r: String)
    ensures
        r@ == slot_label_spec(slot as nat),
{
    let mut r = to_owned_string(BOLD);
    r.append("[ ");
    push_decimal(&mut r, slot);
    r.append(" ]");
    r.append(RESET);
    r
}

/// The button under a card.
fn reroll_button(slot: usize, reroll_used: bool, tc: &str) -> (r: String)
    ensures
        r@ == button_spec(slot as nat, reroll_used, tc@),
{
    let text = if reroll_used {
        let mut t = to_owned_string(DIM);
        t.append("╰─ 리롤 사용 ─╯");
        t.append(RESET);
        t
    } else {
        let mut t = to_owned_string(tc);
        t.append("╭─ r");
        push_decimal(&mut t, slot);
        t.append(": 리롤 ─╮");
        t.append(RESET);
        t
    };
    center_in(text.as_str(), CARD_WIDTH)
}

/// The rows of the card that offers `aug` in slot `slot`: the slot label, the
/// framed body (icon, tier, name, description and, when the augment belongs
/// to any, its synergies) and the reroll button.
pub fn build_card(slot: usize, aug: &Augment, reroll_used: bool, synergies: &[Synergy]) -> (lines: Vec<String>)
    ensures
        lines.deep_view() == card_spec(slot as nat, aug@, reroll_used, syn_views(synergies@)),
{
    let inner: usize = CARD_WIDTH - 2;
    let bd = borders_for(aug.tier.as_str());
    let tc = tier_color(aug.tier.as_str());
    let icon = icon_for(aug.tier.as_str());
    let ghost blank_v = card_blank_spec(bd@, tc@, inner as nat);
    let ghost divider_v = rule_spec(tc@, bd@.div_l, bd@.h, bd@.div_r, inner as nat);

    let mut lines: Vec<String> = Vec::new();
    let label = slot_label(slot);
    push_line(&mut lines, center_in(label.as_str(), CARD_WIDTH));
    push_line(&mut lines, card_rule(tc, bd.tl, bd.h, bd.tr, inner));
    push_line(&mut lines, card_blank(&bd, tc, inner));
    let ghost part1 = lines.deep_view();
    push_icon_rows(&mut lines, &bd, tc, &icon);
    let ghost part2 = lines.deep_view();
    push_line(&mut lines, card_blank(&bd, tc, inner));
    let mut tier_text = to_owned_string(tc);
    tier_text.append("─ ");
    tier_text.append(tier_label(aug.tier.as_str()));
    tier_text.append(" ─");
    tier_text.append(RESET);
    let tier_centred = center_in(tier_text.as_str(), inner);
    push_line(&mut lines, card_row(&bd, tc, inner, tier_centred.as_str()));
    push_line(&mut lines, card_blank(&bd, tc, inner));
    push_line(&mut lines, card_rule(tc, bd.div_l, bd.h, bd.div_r, inner));
    push_line(&mut lines, card_blank(&bd, tc, inner));
    let ghost part3 = lines.deep_view();
    push_name_rows(&mut lines, &bd, tc, aug.name.as_str());
    let ghost part4 = lines.deep_view();
    push_line(&mut lines, card_blank(&bd, tc, inner));
    push_line(&mut lines, card_rule(tc, bd.div_l, bd.h, bd.div_r, inner));
    push_line(&mut lines, card_blank(&bd, tc, inner));
    let ghost part5 = lines.deep_view();
    push_desc_rows(&mut lines, &bd, tc, aug.description.as_str());
    let ghost part6 = lines.deep_view();
    let syns = synergies_for_augment(synergies, aug.name.as_str());
    push_synergy_rows(&mut lines, &bd, tc, aug.name.as_str(), &syns);
    let ghost part7 = lines.deep_view();
    push_line(&mut lines, card_blank(&bd, tc, inner));
    push_line(&mut lines, card_rule(tc, bd.bl, bd.h, bd.br, inner));
    push_line(&mut lines, reroll_button(slot, reroll_used, tc));
    let ghost a = aug@;
    let ghost bdv = borders_spec(a.tier);
    let ghost tcv = tier_color_spec(a.tier);
    assert(part1 =~= seq![
        center_spec(slot_label_spec(slot as nat), CARD_WIDTH as nat),
        rule_spec(tcv, bdv.tl, bdv.h, bdv.tr, inner_width()),
        blank_v,
    ]);
    assert(part3 =~= part2 + seq![blank_v, tier_row_spec(bdv, tcv, a.tier), blank_v, divider_v, blank_v]);
    assert(part5 =~= part4 + seq![blank_v, divider_v, blank_v]);
    assert(lines.deep_view() =~= part7 + seq![
        blank_v,
        rule_spec(tcv, bdv.bl, bdv.h, bdv.br, inner_width()),
        button_spec(slot as nat, reroll_used, tcv),
    ]);
    assert(lines.deep_view() =~= card_spec(slot as nat, aug@, reroll_used, syn_views(synergies@)));
    lines
}

/// The number of rows of the tallest card.
pub open spec fn max_len(cards: Seq<Seq<Seq<char>>>) -> nat
    decreases cards.len(),
{
    if cards.len() == 0 {
        0
    } else {
        let m = max_len(cards.drop_last());
        if cards.last().len() > m {
            cards.last().len()
        } else {
            m
        }
    }
}

/// No card has more rows than `max_len`, and some card has that many
/// when there is any card.
pub proof fn lemma_max_len(cards: Seq<Seq<Seq<char>>>)
    ensures
        forall|i: int| 0 <= i < cards.len() ==> #[trigger] cards[i].len() <= max_len(cards),
        cards.len() > 0 ==> exists|i: int| 0 <= i < cards.len() && #[trigger] cards[i].len() == max_len(cards),
    decreases cards.len(),
{
    if cards.len() > 0 {
        let rest = cards.drop_last();
        lemma_max_len(rest);
        assert forall|i: int| 0 <= i < cards.len() implies #[trigger] cards[i].len() <= max_len(cards) by {
            if i < rest.len() {
                assert(rest[i] == cards[i]);
            }
        }
        if cards.last().len() > max_len(rest) || rest.len() == 0 {
            assert(cards[cards.len() - 1].len() == max_len(cards));
        } else {
            let j = choose|j: int| 0 <= j < rest.len() && #[trigger] rest[j].len() == max_len(rest);
            assert(cards[j] == rest[j]);
        }
    }
}

/// What a card contributes to row `i` of the layout: that row padded to a
/// card's width, or blanks when the card is shorter.
pub open spec fn cell_spec(card: Seq<Seq<char>>, i: int) -> Seq<char> {
    if i < card.len() {
        pad_right_spec(card[i], CARD_WIDTH as nat)
    } else {
        spaces(CARD_WIDTH as nat)
    }
}

/// Row `i` of the layout: each card's cell, three blanks between cards.
pub open spec fn layout_row_spec(cards: Seq<Seq<Seq<char>>>, i: int) -> Seq<char>
    decreases cards.len(),
{
    if cards.len() == 0 {
        Seq::empty()
    } else {
        layout_row_spec(cards.drop_last(), i) + (if cards.len() > 1 {
            spaces(3)
        } else {
            Seq::empty()
        }) + cell_spec(cards.last(), i)
    }
}

/// The cards laid side by side: as many rows as the tallest card has.
pub open spec fn stack_spec(cards: Seq<Seq<Seq<char>>>) -> Seq<Seq<char>> {
    Seq::new(max_len(cards), |i: int| layout_row_spec(cards, i))
}

/// Lays cards side by side, row by row, with a gap of three columns.
pub fn stack_cards_horizontally(cards: Vec<Vec<String>>) -> (out: Vec<String>)
    ensures
        out.deep_view() == stack_spec(cards.deep_view()),
{
    let ghost cv = cards.deep_view();
    let mut max_h: usize = 0;
    let mut j: usize = 0;
    assert(cv.take(0) =~= Seq::<Seq<Seq<char>>>::empty());
    while j < cards.len()
        invariant
            j <= cards@.len(),
            cv == cards.deep_view(),
            max_h == max_len(cv.take(j as int)),
        decreases cards.len() - j,
    {
        assert(cv.take(j + 1).drop_last() =~= cv.take(j as int));
        assert(cv.take(j + 1).last() == cards@[j as int].deep_view());
        if cards[j].len() > max_h {
            max_h = cards[j].len();
        }
        j += 1;
    }
    assert(cv.take(j as int) =~= cv);
    let gap = blanks(CARD_GAP);
    let mut out: Vec<String> = Vec::new();
    let mut i: usize = 0;
    while i < max_h
        invariant
            i <= max_h,
            cv == cards.deep_view(),
            max_h == max_len(cv),
            gap@ == spaces(3),
            out.deep_view() == Seq::new(i as nat, |r: int| layout_row_spec(cv, r)),
        decreases max_h - i,
    {
        let mut row = String::new();
        let mut idx: usize = 0;
        assert(cv.take(0) =~= Seq::<Seq<Seq<char>>>::empty());
        while idx < cards.len()
            invariant
                idx <= cards@.len(),
                i < max_h,
                cv == cards.deep_view(),
                gap@ == spaces(3),
                row@ == layout_row_spec(cv.take(idx as int), i as int),
            decreases cards.len() - idx,
        {
            let card = &cards[idx];
            assert(cv.take(idx + 1).drop_last() =~= cv.take(idx as int));
            assert(cv.take(idx + 1).last() == card.deep_view());
            if idx > 0 {
                row.append(gap.as_str());
            } else {
                assert(row@ + Seq::<char>::empty() =~= row@);
            }
            if i < card.len() {
                let cell = pad_right(card[i].as_str(), CARD_WIDTH);
                assert(card.deep_view()[i as int] == card@[i as int]@);
                row.append(cell.as_str());
            } else {
                let cell = blanks(CARD_WIDTH);
                row.append(cell.as_str());
            }
            idx += 1;
        }
        assert(cv.take(idx as int) =~= cv);
        let ghost before = out.deep_view();
        push_line(&mut out, row);
        assert(out.deep_view() =~= Seq::new((i + 1) as nat, |r: int| layout_row_spec(cv, r)));
        i += 1;
    }
    assert(out.deep_view() =~= stack_spec(cv));
    out
}

/// A card of `len` rows padded to `max` rows: the `blank` rows go just
/// before its last two rows (the bottom frame and the button).
pub open spec fn pad_card_spec(card: Seq<Seq<char>>, max: nat, blank: Seq<char>) -> Seq<Seq<char>> {
    if card.len() >= max {
        card
    } else {
        card.take(card.len() - 2) + Seq::new((max - card.len()) as nat, |k: int| blank) + card.skip(
            card.len() - 2,
        )
    }
}

/// The blank row of a card of the given tier.
pub open spec fn tier_blank_spec(tier: Seq<char>) -> Seq<char> {
    card_blank_spec(borders_spec(tier), tier_color_spec(tier), inner_width())
}

/// Every card padded, with blank rows of its own tier, to the height of
/// the tallest.
pub open spec fn normalized_spec(cards: Seq<Seq<Seq<char>>>, slots: Seq<AugmentView>) -> Seq<Seq<Seq<char>>> {
    Seq::new(
        cards.len(),
        |i: int| pad_card_spec(cards[i], max_len(cards), tier_blank_spec(slots[i].tier)),
    )
}

/// Gives every card the height of the tallest one by inserting blank rows
/// of its tier just above its bottom frame.
pub fn normalize_card_heights(cards: &mut Vec<Vec<String>>, slots: &[Augment])
    requires
        slots@.len() >= old(cards)@.len(),
        forall|i: int|
            0 <= i < old(cards)@.len() && #[trigger] old(cards)@[i]@.len() < max_len(
                old(cards).deep_view(),
            ) ==> old(cards)@[i]@.len() >= 2,
    ensures
        final(cards).deep_view() == normalized_spec(old(cards).deep_view(), crate::synergy::aug_views(slots@)),
{
    let ghost cv = cards.deep_view();
    let ghost m = max_len(cv);
    let mut max_len_exec: usize = 0;
    let mut j: usize = 0;
    assert(cv.take(0) =~= Seq::<Seq<Seq<char>>>::empty());
    while j < cards.len()
        invariant
            j <= cards@.len(),
            cv == cards.deep_view(),
            max_len_exec == max_len(cv.take(j as int)),
        decreases cards.len() - j,
    {
        assert(cv.take(j + 1).drop_last() =~= cv.take(j as int));
        assert(cv.take(j + 1).last() == cards@[j as int].deep_view());
        if cards[j].len() > max_len_exec {
            max_len_exec = cards[j].len();
        }
        j += 1;
    }
    assert(cv.take(j as int) =~= cv);
    let inner: usize = CARD_WIDTH - 2;
    let mut taken: Vec<Vec<String>> = Vec::new();
    std::mem::swap(cards, &mut taken);
    let n = taken.len();
    let mut i: usize = 0;
    while i < n
        invariant
            i <= n,
            n == taken@.len(),
            n == cv.len(),
            taken.deep_view() == cv,
            max_len_exec == m,
            m == max_len(cv),
            slots@.len() >= n,
            inner == inner_width(),
            forall|k: int| 0 <= k < n && #[trigger] cv[k].len() < m ==> cv[k].len() >= 2,
            cards.deep_view() == normalized_spec(cv, crate::synergy::aug_views(slots@)).take(i as int),
        decreases n - i,
    {
        let tier = slots[i].tier.as_str();
        let bd = borders_for(tier);
        let tc = tier_color(tier);
        let blank = card_blank(&bd, tc, inner);
        let mut card = taken[i].clone();
        assert(card.deep_view() =~= cv[i as int]) by {
            assert forall|k: int| 0 <= k < card@.len() implies card@[k]@ == taken@[i as int]@[k]@ by {
                assert(vstd::pervasive::cloned::<String>(taken@[i as int]@[k], card@[k]));
            }
        }
        let ghost orig = cv[i as int];
        let ghost len0 = orig.len();
        let ghost b = blank@;
        let mut k: usize = 0;
        proof {
            if len0 < m {
                assert(orig =~= orig.take(len0 - 2) + Seq::new(0, |q: int| b) + orig.skip(len0 - 2));
            }
        }
        while card.len() < max_len_exec
            invariant
                max_len_exec == m,
                orig.len() == len0,
                card@.len() == len0 + k,
                k <= m,
                len0 + k <= m || k == 0,
                k > 0 ==> len0 >= 2,
                len0 < m ==> len0 >= 2,
                blank@ == b,
                card.deep_view() == (if len0 < m || k > 0 {
                    orig.take(len0 - 2) + Seq::new(k as nat, |q: int| b) + orig.skip(len0 - 2)
                } else {
                    orig
                }),
            decreases m - card@.len(),
        {
            let at = card.len() - 2;
            let ghost before = card.deep_view();
            card.insert(at, blank.clone());
            assert(card.deep_view() =~= before.insert(at as int, b));
            assert(orig.take(len0 - 2) + Seq::new((k + 1) as nat, |q: int| b) + orig.skip(len0 - 2)
                =~= before.insert(at as int, b));
            k += 1;
        }
        let ghost expected = pad_card_spec(orig, m, tier_blank_spec(slots@[i as int].tier@));
        assert(card.deep_view() =~= expected);
        let ghost before_cards = cards.deep_view();
        cards.push(card);
        assert(cards.deep_view() =~= before_cards.push(expected));
        assert(normalized_spec(cv, crate::synergy::aug_views(slots@)).take(i + 1) =~= normalized_spec(
            cv,
            crate::synergy::aug_views(slots@),
        ).take(i as int).push(expected));
        i += 1;
    }
    assert(normalized_spec(cv, crate::synergy::aug_views(slots@)).take(n as int) =~= normalized_spec(
        cv,
        crate::synergy::aug_views(slots@),
    ));
}

/// The cards offered for the slots, numbered from 1.
pub open spec fn slot_cards_spec(slots: Seq<AugmentView>, reroll_used: Seq<bool>, synergies: Seq<SynergyView>) -> Seq<Seq<Seq<char>>> {
    Seq::new(slots.len(), |i: int| card_spec((i + 1) as nat, slots[i], reroll_used[i], synergies))
}

/// Every card has at least its label, top frame and a blank row.
pub proof fn lemma_card_height(slot: nat, aug: AugmentView, reroll_used: bool, synergies: Seq<SynergyView>)
    ensures
        card_spec(slot, aug, reroll_used, synergies).len() >= 2,
{
}

/// The rows that show the offered cards side by side, all of one height.
pub fn render_three_cards(slots: &[Augment], reroll_used: &[bool], synergies: &[Synergy]) -> (out: Vec<String>)
    requires
        reroll_used@.len() >= slots@.len(),
    ensures
        out.deep_view() == stack_spec(
            normalized_spec(
                slot_cards_spec(crate::synergy::aug_views(slots@), reroll_used@, syn_views(synergies@)),
                crate::synergy::aug_views(slots@),
            ),
        ),
{
    let ghost want = slot_cards_spec(crate::synergy::aug_views(slots@), reroll_used@, syn_views(synergies@));
    let mut cards: Vec<Vec<String>> = Vec::new();
    let mut i: usize = 0;
    while i < slots.len()
        invariant
            i <= slots@.len(),
            reroll_used@.len() >= slots@.len(),
            want == slot_cards_spec(crate::synergy::aug_views(slots@), reroll_used@, syn_views(synergies@)),
            cards.deep_view() == want.take(i as int),
        decreases slots.len() - i,
    {
        let card = build_card(i + 1, &slots[i], reroll_used[i], synergies);
        let ghost before = cards.deep_view();
        let ghost cv = card.deep_view();
        cards.push(card);
        assert(cards.deep_view() =~= before.push(cv));
        assert(want.take(i + 1) =~= want.take(i as int).push(want[i as int]));
        i += 1;
    }
    assert(want.take(i as int) =~= want);
    proof {
        assert forall|k: int| 0 <= k < cards@.len() implies #[trigger] cards@[k]@.len() >= 2 by {
            lemma_card_height((k + 1) as nat, slots@[k]@, reroll_used@[k], syn_views(synergies@));
            assert(cards.deep_view()[k] == want[k]);
        }
    }
    normalize_card_heights(&mut cards, slots);
    stack_cards_horizontally(cards)
}

} // verus!
