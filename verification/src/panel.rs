//! The synergy panel shown above the cards and the status shown after a pick.

use vstd::prelude::*;
use vstd::string::StringExecFns;
use crate::model::{Augment, StageView, Synergy, SynergyView, names_of};
use crate::style::{BOLD, DIM, GREEN, PANEL_WIDTH, RESET};
use crate::synergy::{
    aug_views, count_held, current_stage, current_stage_spec, last_threshold, max_threshold,
    progress_spec, syn_views, synergy_bar, synergy_bar_spec, synergy_progress,
};
use crate::text::{
    center_in, center_spec, decimal, pad_right, pad_right_spec, push_decimal, repeat_seq, repeat_str,
    to_owned_string, visible_width, vw,
};

verus! {

/// Position of the first stage whose threshold is above `count`, looking
/// from position `from` on.
pub open spec fn first_above_from(stages: Seq<StageView>, count: nat, from: int) -> Option<int>
    decreases stages.len() - from,
{
    if from < 0 || from >= stages.len() {
        None
    } else if stages[from].threshold > count {
        Some(from)
    } else {
        first_above_from(stages, count, from + 1)
    }
}

/// The threshold of the next stage to reach: the first above `count`, or
/// the last threshold when there is none.
pub open spec fn next_threshold(stages: Seq<StageView>, count: nat) -> nat {
    match first_above_from(stages, count, 0) {
        Some(i) => stages[i].threshold as nat,
        None => max_threshold(stages),
    }
}

/// The synergies that the picked augments advance all have stages.
pub open spec fn advanced_have_stages(syns: Seq<SynergyView>, picked: Seq<Seq<char>>) -> bool {
    forall|i: int|
        0 <= i < syns.len() && count_held(#[trigger] syns[i].augments, picked) > 0
            ==> syns[i].stages.len() > 0
}

/// When no stage is reached and there is a stage, the next threshold is
/// above the count.
pub proof fn lemma_next_above(stages: Seq<StageView>, count: nat)
    requires
        stages.len() > 0,
        current_stage_spec(stages, count) is None,
    ensures
        next_threshold(stages, count) > count,
{
    lemma_none_reached(stages, count);
    assert(stages[0].threshold > count);
}

proof fn lemma_none_reached(stages: Seq<StageView>, count: nat)
    requires
        current_stage_spec(stages, count) is None,
    ensures
        forall|i: int| 0 <= i < stages.len() ==> #[trigger] stages[i].threshold > count,
    decreases stages.len(),
{
    if stages.len() > 0 {
        lemma_none_reached(stages.drop_last(), count);
        assert forall|i: int| 0 <= i < stages.len() implies #[trigger] stages[i].threshold > count by {
            if i < stages.len() - 1 {
                assert(stages.drop_last()[i] == stages[i]);
            }
        }
    }
}

/// The threshold of the next stage to reach.
fn next_stage_threshold(syn: &Synergy, count: usize) -> (t: usize)
    ensures
        t == next_threshold(syn@.stages, count as nat),
{
    let n = syn.stages.len();
    let mut i: usize = 0;
    while i < n
        invariant
            i <= n,
            n == syn@.stages.len(),
            first_above_from(syn@.stages, count as nat, 0) == first_above_from(
                syn@.stages,
                count as nat,
                i as int,
            ),
        decreases n - i,
    {
        if syn.stages[i].threshold > count {
            return syn.stages[i].threshold;
        }
        i += 1;
    }
    last_threshold(syn)
}

/// The columns inside the panel's frame.
pub open spec fn panel_inner() -> nat {
    (PANEL_WIDTH - 2) as nat
}

/// The panel's title.
pub open spec fn panel_title() -> Seq<char> {
    " 누적 시너지 "@
}

/// The top frame of the panel, the title centred in it (`tw` is the
/// title's width; the odd column goes to the right).
pub open spec fn panel_top_spec(tw: nat) -> Seq<char> {
    let left = ((panel_inner() - tw) / 2) as nat;
    let right = (panel_inner() - tw - left) as nat;
    DIM@ + "╭"@ + repeat_seq("─"@, left) + BOLD@ + panel_title() + RESET@ + DIM@ + repeat_seq(
        "─"@,
        right,
    ) + DIM@ + "╮"@ + RESET@
}

/// A row of the panel between its side frames.
pub open spec fn framed_spec(content: Seq<char>) -> Seq<char> {
    DIM@ + "│"@ + RESET@ + content + DIM@ + "│"@ + RESET@
}

/// The row shown when no synergy has started.
pub open spec fn panel_empty_row() -> Seq<char> {
    framed_spec(center_spec(DIM@ + "아직 누적된 시너지 없음"@ + RESET@, panel_inner()))
}

/// The status of a synergy in the panel: the stage reached, or how many
/// more augments the next stage needs.
pub open spec fn panel_status_spec(stages: Seq<StageView>, count: nat) -> Seq<char> {
    match current_stage_spec(stages, count) {
        Some(i) => GREEN@ + "✓ "@ + decimal(stages[i].threshold as nat) + "단계 활성"@ + RESET@,
        None => DIM@ + "다음 "@ + decimal((next_threshold(stages, count) - count) as nat) + "개 필요"@
            + RESET@,
    }
}

/// The panel row of a synergy with `count` augments held.
pub open spec fn panel_row_spec(s: SynergyView, count: nat) -> Seq<char> {
    let active = current_stage_spec(s.stages, count) is Some;
    let bar = (if active { GREEN@ } else { DIM@ }) + synergy_bar_spec(s.stages, count) + RESET@;
    let line = "  ◆ "@ + pad_right_spec(BOLD@ + s.name + RESET@, 18) + "  "@ + pad_right_spec(bar, 6)
        + "  "@ + DIM@ + "("@ + decimal(count) + "/"@ + decimal(max_threshold(s.stages)) + ")"@
        + RESET@ + "  "@ + panel_status_spec(s.stages, count);
    framed_spec(pad_right_spec(line, panel_inner()))
}

/// The bottom frame of the panel.
pub open spec fn panel_bottom_spec() -> Seq<char> {
    DIM@ + "╰"@ + repeat_seq("─"@, panel_inner()) + "╯"@ + RESET@
}

/// The whole panel: top frame, one row per advanced synergy (or the note
/// that there is none) and bottom frame.
pub open spec fn panel_spec(syns: Seq<SynergyView>, picked: Seq<Seq<char>>, tw: nat) -> Seq<Seq<char>> {
    let p = progress_spec(syns, picked);
    seq![panel_top_spec(tw)] + (if p.len() == 0 {
        seq![panel_empty_row()]
    } else {
        Seq::new(p.len(), |k: int| panel_row_spec(syns[p[k].0], p[k].1))
    }) + seq![panel_bottom_spec()]
}

/// A row of the panel between its side frames.
fn framed(content: &str) -> (r: String)
    ensures
        r@ == framed_spec(content@),
{
    let mut r = to_owned_string(DIM);
    r.append("│");
    r.append(RESET);
    r.append(content);
    r.append(DIM);
    r.append("│");
    r.append(RESET);
    r
}

/// The status text of a synergy in the panel.
fn panel_status(s: &Synergy, count: usize) -> (r: String)
    requires
        s@.stages.len() > 0,
    ensures
        r@ == panel_status_spec(s@.stages, count as nat),
{
    match current_stage(s, count) {
        Some(st) => {
            let mut r = to_owned_string(GREEN);
            r.append("✓ ");
            push_decimal(&mut r, st.threshold);
            r.append("단계 활성");
            r.append(RESET);
            r
        },
        None => {
            let next = next_stage_threshold(s, count);
            proof {
                lemma_next_above(s@.stages, count as nat);
            }
            let mut r = to_owned_string(DIM);
            r.append("다음 ");
            push_decimal(&mut r, next - count);
            r.append("개 필요");
            r.append(RESET);
            r
        },
    }
}

/// The panel row of a synergy with `count` augments held.
fn panel_row(s: &Synergy, count: usize) -> (r: String)
    requires
        s@.stages.len() > 0,
    ensures
        r@ == panel_row_spec(s@, count as nat),
{
    let max_th = last_threshold(s);
    let bar = synergy_bar(s, count);
    let active = current_stage(s, count).is_some();
    let status = panel_status(s, count);
    let mut name = to_owned_string(BOLD);
    name.append(s.name.as_str());
    name.append(RESET);
    let name_padded = pad_right(name.as_str(), 18);
    let mut bar_coloured = if active { to_owned_string(GREEN) } else { to_owned_string(DIM) };
    bar_coloured.append(bar.as_str());
    bar_coloured.append(RESET);
    let bar_padded = pad_right(bar_coloured.as_str(), 6);
    let mut line = to_owned_string("  ◆ ");
    line.append(name_padded.as_str());
    line.append("  ");
    line.append(bar_padded.as_str());
    line.append("  ");
    line.append(DIM);
    line.append("(");
    push_decimal(&mut line, count);
    line.append("/");
    push_decimal(&mut line, max_th);
    line.append(")");
    line.append(RESET);
    line.append("  ");
    line.append(status.as_str());
    let padded = pad_right(line.as_str(), PANEL_WIDTH - 2);
    framed(padded.as_str())
}

/// The synergy panel shown above the cards.  `None` when the panel's title
/// is wider than the panel itself, which leaves no room to draw it.
pub fn accumulated_synergies_panel(synergies: &[Synergy], picked: &[Augment]) -> (r: Option<Vec<String>>)
    requires
        advanced_have_stages(syn_views(synergies@), names_of(aug_views(picked@))),
    ensures
        match r {
            None => visible_width(panel_title()) > panel_inner(),
            Some(lines) => visible_width(panel_title()) <= panel_inner() && lines.deep_view()
                == panel_spec(
                syn_views(synergies@),
                names_of(aug_views(picked@)),
                visible_width(panel_title()),
            ),
        },
{
    let inner: usize = PANEL_WIDTH - 2;
    let title = " 누적 시너지 ";
    let title_w = vw(title);
    if title_w > inner {
        return None;
    }
    let ghost sv = syn_views(synergies@);
    let ghost names = names_of(aug_views(picked@));
    let progress = synergy_progress(synergies, picked);
    let ghost p = progress_spec(sv, names);
    let title_left = (inner - title_w) / 2;
    let title_right = inner - title_w - title_left;
    let mut top = to_owned_string(DIM);
    top.append("╭");
    let left_rule = repeat_str("─", title_left);
    top.append(left_rule.as_str());
    top.append(BOLD);
    top.append(title);
    top.append(RESET);
    top.append(DIM);
    let right_rule = repeat_str("─", title_right);
    top.append(right_rule.as_str());
    top.append(DIM);
    top.append("╮");
    top.append(RESET);
    let mut lines: Vec<String> = Vec::new();
    lines.push(top);
    let ghost head = lines.deep_view();
    assert(head =~= seq![panel_top_spec(title_w as nat)]);
    if progress.len() == 0 {
        let mut msg = to_owned_string(DIM);
        msg.append("아직 누적된 시너지 없음");
        msg.append(RESET);
        let centred = center_in(msg.as_str(), inner);
        lines.push(framed(centred.as_str()));
        assert(lines.deep_view() =~= head + seq![panel_empty_row()]);
    } else {
        let ghost rows = Seq::new(p.len(), |k: int| panel_row_spec(sv[p[k].0], p[k].1));
        let mut k: usize = 0;
        while k < progress.len()
            invariant
                k <= progress@.len(),
                progress@.len() == p.len(),
                sv == syn_views(synergies@),
                p == progress_spec(sv, names),
                advanced_have_stages(sv, names),
                forall|q: int|
                    0 <= q < p.len() ==> {
                        &&& 0 <= p[q].0 < synergies@.len()
                        &&& *progress@[q].0 == synergies@[p[q].0]
                        &&& progress@[q].1 == p[q].1
                    },
                rows == Seq::new(p.len(), |k: int| panel_row_spec(sv[p[k].0], p[k].1)),
                lines.deep_view() == head + rows.take(k as int),
            decreases progress.len() - k,
        {
            let (s, c) = progress[k];
            proof {
                lemma_progress_positive(sv, names, k as int);
                assert(sv[p[k as int].0] == s@);
            }
            let row = panel_row(s, c);
            let ghost before = lines.deep_view();
            let ghost rv = row@;
            lines.push(row);
            assert(lines.deep_view() =~= before.push(rv));
            assert(head + rows.take(k + 1) =~= (head + rows.take(k as int)).push(rows[k as int]));
            k += 1;
        }
        assert(rows.take(k as int) =~= rows);
    }
    let ghost mid = lines.deep_view();
    let mut bottom = to_owned_string(DIM);
    bottom.append("╰");
    let rule = repeat_str("─", inner);
    bottom.append(rule.as_str());
    bottom.append("╯");
    bottom.append(RESET);
    let ghost bv = bottom@;
    lines.push(bottom);
    assert(lines.deep_view() =~= mid.push(bv));
    assert(lines.deep_view() =~= panel_spec(sv, names, title_w as nat));
    Some(lines)
}

/// Every synergy that the progress lists has a positive count, and its
/// stages are non-empty when the advanced synergies all have stages.
pub proof fn lemma_progress_positive(syns: Seq<SynergyView>, picked: Seq<Seq<char>>, k: int)
    requires
        0 <= k < progress_spec(syns, picked).len(),
        advanced_have_stages(syns, picked),
    ensures
        0 <= progress_spec(syns, picked)[k].0 < syns.len(),
        progress_spec(syns, picked)[k].1 > 0,
        progress_spec(syns, picked)[k].1 == count_held(
            syns[progress_spec(syns, picked)[k].0].augments,
            picked,
        ),
        syns[progress_spec(syns, picked)[k].0].stages.len() > 0,
    decreases syns.len(),
{
    let rest = progress_spec(syns.drop_last(), picked);
    assert(advanced_have_stages(syns.drop_last(), picked)) by {
        assert forall|i: int|
            0 <= i < syns.drop_last().len() && count_held(
                #[trigger] syns.drop_last()[i].augments,
                picked,
            ) > 0 implies syns.drop_last()[i].stages.len() > 0 by {
            assert(syns.drop_last()[i] == syns[i]);
        }
    }
    if k < rest.len() {
        lemma_progress_positive(syns.drop_last(), picked, k);
        assert(syns.drop_last()[rest[k].0] == syns[rest[k].0]);
    } else {
        assert(syns[syns.len() - 1] == syns.last());
    }
}

/// The status line of a synergy after a pick.
pub open spec fn status_row_spec(s: SynergyView, count: nat) -> Seq<char> {
    let (col, label) = match current_stage_spec(s.stages, count) {
        Some(i) => (GREEN@, "✓ "@ + decimal(s.stages[i].threshold as nat) + "단계 활성"@),
        None => (DIM@, "다음 "@ + decimal((next_threshold(s.stages, count) - count) as nat) + "개"@),
    };
    "    ◆ "@ + BOLD@ + s.name + RESET@ + "  ("@ + decimal(count) + "/"@ + decimal(
        max_threshold(s.stages),
    ) + ")  "@ + col + label + RESET@
}

/// The synergy status shown after each pick: nothing when no synergy has
/// started, else an empty line, a heading and one line per synergy.
pub open spec fn status_spec(syns: Seq<SynergyView>, picked: Seq<Seq<char>>) -> Seq<Seq<char>> {
    let p = progress_spec(syns, picked);
    if p.len() == 0 {
        Seq::empty()
    } else {
        seq![Seq::empty(), "    "@ + DIM@ + "━━━ 시너지 진행 ━━━"@ + RESET@] + Seq::new(
            p.len(),
            |k: int| status_row_spec(syns[p[k].0], p[k].1),
        )
    }
}

/// The status line of a synergy after a pick.
fn status_row(s: &Synergy, count: usize) -> (r: String)
    requires
        s@.stages.len() > 0,
    ensures
        r@ == status_row_spec(s@, count as nat),
{
    let max_th = last_threshold(s);
    let mut r = to_owned_string("    ◆ ");
    r.append(BOLD);
    r.append(s.name.as_str());
    r.append(RESET);
    r.append("  (");
    push_decimal(&mut r, count);
    r.append("/");
    push_decimal(&mut r, max_th);
    r.append(")  ");
    match current_stage(s, count) {
        Some(st) => {
            r.append(GREEN);
            r.append("✓ ");
            push_decimal(&mut r, st.threshold);
            r.append("단계 활성");
        },
        None => {
            let next = next_stage_threshold(s, count);
            proof {
                lemma_next_above(s@.stages, count as nat);
            }
            r.append(DIM);
            r.append("다음 ");
            push_decimal(&mut r, next - count);
            r.append("개");
        },
    }
    r.append(RESET);
    r
}

/// The lines of the synergy status shown after a pick.
pub fn synergy_status_lines(synergies: &[Synergy], picked: &[Augment]) -> (lines: Vec<String>)
    requires
        advanced_have_stages(syn_views(synergies@), names_of(aug_views(picked@))),
    ensures
        lines.deep_view() == status_spec(syn_views(synergies@), names_of(aug_views(picked@))),
{
    let ghost sv = syn_views(synergies@);
    let ghost names = names_of(aug_views(picked@));
    let progress = synergy_progress(synergies, picked);
    let ghost p = progress_spec(sv, names);
    let mut lines: Vec<String> = Vec::new();
    if progress.len() == 0 {
        assert(lines.deep_view() =~= status_spec(sv, names));
        return lines;
    }
    lines.push(String::new());
    let mut heading = to_owned_string("    ");
    heading.append(DIM);
    heading.append("━━━ 시너지 진행 ━━━");
    heading.append(RESET);
    lines.push(heading);
    let ghost head = lines.deep_view();
    assert(head =~= seq![Seq::<char>::empty(), "    "@ + DIM@ + "━━━ 시너지 진행 ━━━"@ + RESET@]);
    let ghost rows = Seq::new(p.len(), |k: int| status_row_spec(sv[p[k].0], p[k].1));
    let mut k: usize = 0;
    while k < progress.len()
        invariant
            k <= progress@.len(),
            progress@.len() == p.len(),
            sv == syn_views(synergies@),
            p == progress_spec(sv, names),
            advanced_have_stages(sv, names),
            forall|q: int|
                0 <= q < p.len() ==> {
                    &&& 0 <= p[q].0 < synergies@.len()
                    &&& *progress@[q].0 == synergies@[p[q].0]
                    &&& progress@[q].1 == p[q].1
                },
            rows == Seq::new(p.len(), |k: int| status_row_spec(sv[p[k].0], p[k].1)),
            lines.deep_view() == head + rows.take(k as int),
        decreases progress.len() - k,
    {
        let (s, c) = progress[k];
        proof {
            lemma_progress_positive(sv, names, k as int);
            assert(sv[p[k as int].0] == s@);
        }
        let row = status_row(s, c);
        let ghost before = lines.deep_view();
        let ghost rv = row@;
        lines.push(row);
        assert(lines.deep_view() =~= before.push(rv));
        assert(head + rows.take(k + 1) =~= (head + rows.take(k as int)).push(rows[k as int]));
        k += 1;
    }
    assert(rows.take(k as int) =~= rows);
    lines
}

/// Whether every synergy that the picks advance has stages (the panel and
/// the status need a next stage to count towards).
pub fn advanced_synergies_have_stages(synergies: &[Synergy], picked: &[Augment]) -> (r: bool)
    ensures
        r == advanced_have_stages(syn_views(synergies@), names_of(aug_views(picked@))),
{
    let ghost sv = syn_views(synergies@);
    let ghost names = names_of(aug_views(picked@));
    let mut i: usize = 0;
    while i < synergies.len()
        invariant
            i <= synergies@.len(),
            sv == syn_views(synergies@),
            names == names_of(aug_views(picked@)),
            forall|j: int|
                0 <= j < i && count_held(#[trigger] sv[j].augments, names) > 0 ==> sv[j].stages.len() > 0,
        decreases synergies.len() - i,
    {
        let s = &synergies[i];
        assert(sv[i as int] == s@);
        let c = crate::synergy::count_picked_in(&s.augments, picked);
        if c > 0 && s.stages.len() == 0 {
            assert(count_held(sv[i as int].augments, names) > 0 && sv[i as int].stages.len() == 0);
            return false;
        }
        i += 1;
    }
    true
}

} // verus!
