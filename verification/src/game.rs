//! The rounds of a game: dealing cards, rerolls, picks, and what the screen
//! shows around them.

use vstd::prelude::*;
use vstd::string::StringExecFns;
use rand::rngs::ThreadRng;
use crate::draw::{
    NameSet, choose_one_position, choose_positions, handle_special, is_special_name,
    special_outcome,
};
use crate::model::{Augment, AugmentView, Champion, Synergy, SynergyView, names_of};
use crate::style::{BOLD, CHOICES_PER_PICK, DIM, RESET, tier_color, tier_color_spec, tier_label, tier_label_spec};
use crate::synergy::{
    aug_views, current_stage, current_stage_spec, last_threshold, max_threshold, progress_spec,
    syn_views, synergy_progress,
};
use crate::wrap::{wrap_spec, wrap_text};
use crate::input::{Command, command_spec, parse_command};
use crate::style::GREEN;
use crate::text::{
    blanks, decimal, push_decimal, repeat_seq, repeat_str, spaces, str_eq, to_owned_string,
    visible_width, vw,
};

verus! {

/// The champion level at which each of the four rounds is played.
pub const LEVELS: [u32; 4] = [3, 7, 11, 15];

/// Columns inside the frame of a header.
pub open spec fn header_inner() -> nat {
    64
}

/// The three lines of a header that frames `title` (`tw` is its width).
pub open spec fn header_spec(title: Seq<char>, tw: nat) -> Seq<Seq<char>> {
    let pad = (header_inner() - tw) as nat;
    let lpad = pad / 2;
    let rpad = (pad - lpad) as nat;
    seq![
        BOLD@ + "╔"@ + repeat_seq("═"@, header_inner()) + "╗"@ + RESET@,
        BOLD@ + "║"@ + spaces(lpad) + title + spaces(rpad) + BOLD@ + "║"@ + RESET@,
        BOLD@ + "╚"@ + repeat_seq("═"@, header_inner()) + "╝"@ + RESET@,
    ]
}

/// A framed header around `title`, centred in 64 columns.  `None` when the
/// title is wider than that, which leaves no room to centre it.
pub fn header_lines(title: &str) -> (r: Option<Vec<String>>)
    ensures
        match r {
            None => visible_width(title@) > header_inner(),
            Some(lines) => visible_width(title@) <= header_inner() && lines.deep_view() == header_spec(
                title@,
                visible_width(title@),
            ),
        },
{
    let inner: usize = 64;
    let w = vw(title);
    if w > inner {
        return None;
    }
    let pad = inner - w;
    let lpad = pad / 2;
    let rpad = pad - lpad;
    let rule = repeat_str("═", inner);
    let mut top = to_owned_string(BOLD);
    top.append("╔");
    top.append(rule.as_str());
    top.append("╗");
    top.append(RESET);
    let mut mid = to_owned_string(BOLD);
    mid.append("║");
    let left = blanks(lpad);
    mid.append(left.as_str());
    mid.append(title);
    let right = blanks(rpad);
    mid.append(right.as_str());
    mid.append(BOLD);
    mid.append("║");
    mid.append(RESET);
    let mut bottom = to_owned_string(BOLD);
    bottom.append("╚");
    bottom.append(rule.as_str());
    bottom.append("╝");
    bottom.append(RESET);
    let mut lines: Vec<String> = Vec::new();
    lines.push(top);
    lines.push(mid);
    lines.push(bottom);
    assert(lines.deep_view() =~= header_spec(title@, w as nat));
    Some(lines)
}

/// The line that opens round `round_idx` (counted from 0).
pub open spec fn round_header_spec(round_idx: nat, level: nat, tier: Seq<char>) -> Seq<char> {
    "    "@ + BOLD@ + "━━━ 라운드 "@ + decimal(round_idx + 1) + "/4   레벨 "@ + decimal(level)
        + "   ::  "@ + tier_color_spec(tier) + tier_label_spec(tier) + RESET@ + " 증강 ━━━"@ + RESET@
}

/// The line that opens round `round_idx` (counted from 0).
pub fn round_header(round_idx: usize, level: u32, tier: &str) -> (r: String)
    requires
        round_idx < usize::MAX,
    ensures
        r@ == round_header_spec(round_idx as nat, level as nat, tier@),
{
    let mut r = to_owned_string("    ");
    r.append(BOLD);
    r.append("━━━ 라운드 ");
    push_decimal(&mut r, round_idx + 1);
    r.append("/4   레벨 ");
    push_decimal(&mut r, level as usize);
    r.append("   ::  ");
    r.append(tier_color(tier));
    r.append(tier_label(tier));
    r.append(RESET);
    r.append(" 증강 ━━━");
    r.append(RESET);
    r
}

/// An augment that a round of `tier` may deal: of that tier and never shown.
pub open spec fn in_round_pool(a: AugmentView, tier: Seq<char>, seen: Set<Seq<char>>) -> bool {
    a.tier == tier && !seen.contains(a.name)
}

/// Positions, in order, of the augments that a round of `tier` may deal.
pub open spec fn pool_positions(augs: Seq<AugmentView>, tier: Seq<char>, seen: Set<Seq<char>>) -> Seq<usize>
    decreases augs.len(),
{
    if augs.len() == 0 {
        Seq::empty()
    } else {
        let rest = pool_positions(augs.drop_last(), tier, seen);
        if in_round_pool(augs.last(), tier, seen) {
            rest.push((augs.len() - 1) as usize)
        } else {
            rest
        }
    }
}

/// Positions listed by `pool_positions` hold augments of the pool, each
/// appears once, and every augment of the pool is listed.
pub proof fn lemma_pool_positions(augs: Seq<AugmentView>, tier: Seq<char>, seen: Set<Seq<char>>)
    requires
        augs.len() <= usize::MAX,
    ensures
        forall|x: usize|
            pool_positions(augs, tier, seen).contains(x) ==> (x as int) < augs.len() && in_round_pool(
                augs[x as int],
                tier,
                seen,
            ),
        forall|i: int|
            0 <= i < augs.len() && in_round_pool(#[trigger] augs[i], tier, seen) ==> pool_positions(
                augs,
                tier,
                seen,
            ).contains(i as usize),
        pool_positions(augs, tier, seen).no_duplicates(),
    decreases augs.len(),
{
    if augs.len() > 0 {
        let rest = augs.drop_last();
        lemma_pool_positions(rest, tier, seen);
        let pr = pool_positions(rest, tier, seen);
        let p = pool_positions(augs, tier, seen);
        assert forall|x: usize| p.contains(x) implies (x as int) < augs.len() && in_round_pool(
            augs[x as int],
            tier,
            seen,
        ) by {
            if pr.contains(x) {
                assert(rest[x as int] == augs[x as int]);
            } else {
                let k = choose|k: int| 0 <= k < p.len() && p[k] == x;
                assert(k == pr.len());
            }
        }
        assert forall|i: int| 0 <= i < augs.len() && in_round_pool(#[trigger] augs[i], tier, seen) implies p.contains(
            i as usize,
        ) by {
            if i < rest.len() {
                assert(rest[i] == augs[i]);
                let k = choose|k: int| 0 <= k < pr.len() && pr[k] == i as usize;
                assert(p[k] == i as usize);
            } else {
                assert(p[pr.len() as int] == i as usize);
            }
        }
        if in_round_pool(augs.last(), tier, seen) {
            assert(!pr.contains((augs.len() - 1) as usize));
        }
    }
}

/// Every outcome of dealing a round of `tier`: up to three augments of the
/// pool, at distinct positions of the list (fewer only when the pool is
/// smaller), in any order.
pub open spec fn deal_outcome(augs: Seq<AugmentView>, tier: Seq<char>, seen: Set<Seq<char>>, slots: Seq<AugmentView>) -> bool {
    let pool = pool_positions(augs, tier, seen);
    &&& slots.len() == if pool.len() < CHOICES_PER_PICK { pool.len() as int } else {
        CHOICES_PER_PICK as int
    }
    &&& exists|ps: Seq<usize>|
        ps.len() == slots.len() && ps.no_duplicates() && forall|k: int|
            0 <= k < ps.len() ==> pool.contains(#[trigger] ps[k]) && slots[k] == augs[ps[k] as int]
}

/// The cards of a round: up to three distinct augments of the pool (fewer
/// only when the pool is smaller), in random order.
pub fn deal_slots(tier: &str, augments: &[Augment], seen: &NameSet, rng: &mut ThreadRng) -> (slots: Vec<Augment>)
    ensures
        deal_outcome(aug_views(augments@), tier@, seen@, aug_views(slots@)),
{
    let ghost av = aug_views(augments@);
    let mut pool: Vec<usize> = Vec::new();
    let mut i: usize = 0;
    while i < augments.len()
        invariant
            i <= augments@.len(),
            av == aug_views(augments@),
            pool@ == pool_positions(av.take(i as int), tier@, seen@),
        decreases augments.len() - i,
    {
        let a = &augments[i];
        assert(av.take(i + 1).drop_last() =~= av.take(i as int));
        assert(av.take(i + 1).last() == a@);
        if str_eq(a.tier.as_str(), tier) && !seen.contains(a.name.as_str()) {
            pool.push(i);
        }
        i += 1;
    }
    assert(av.take(i as int) =~= av);
    proof {
        lemma_pool_positions(av, tier@, seen@);
    }
    let chosen = choose_positions(rng, pool.as_slice(), CHOICES_PER_PICK);
    let mut slots: Vec<Augment> = Vec::new();
    let mut k: usize = 0;
    while k < chosen.len()
        invariant
            k <= chosen@.len(),
            av == aug_views(augments@),
            forall|q: int| 0 <= q < chosen@.len() ==> pool@.contains(#[trigger] chosen@[q]),
            forall|x: usize| pool@.contains(x) ==> (x as int) < augments@.len(),
            slots@.len() == k,
            forall|q: int| 0 <= q < k ==> #[trigger] slots@[q]@ == av[chosen@[q] as int],
        decreases chosen.len() - k,
    {
        let p = chosen[k];
        assert(pool@.contains(p));
        slots.push(augments[p].clone());
        k += 1;
    }
    assert(chosen@.len() == slots@.len() && chosen@.no_duplicates() && forall|q: int|
        0 <= q < chosen@.len() ==> pool@.contains(#[trigger] chosen@[q]) && aug_views(slots@)[q] == av[chosen@[q] as int]);
    slots
}

/// An augment that may replace the card in slot `i`: of the round's tier,
/// never shown, and not the same as another card on the table.
pub open spec fn reroll_eligible(a: AugmentView, tier: Seq<char>, seen: Set<Seq<char>>, slots: Seq<AugmentView>, i: int) -> bool {
    &&& a.tier == tier
    &&& !seen.contains(a.name)
    &&& forall|j: int| 0 <= j < slots.len() && j != i ==> #[trigger] slots[j].name != a.name
}

/// What a reroll request came to.
#[derive(PartialEq, Eq, Structural, Debug, Clone, Copy)]
pub enum RerollOutcome {
    /// The slot was already rerolled this round; nothing changed.
    AlreadyUsed,
    /// The card was replaced.
    Replaced,
    /// No augment could replace it (its own card is now marked as shown).
    PoolEmpty,
}

/// Positions, in order, of the augments that may replace slot `i`.
pub open spec fn reroll_positions(augs: Seq<AugmentView>, tier: Seq<char>, seen: Set<Seq<char>>, slots: Seq<AugmentView>, i: int) -> Seq<usize>
    decreases augs.len(),
{
    if augs.len() == 0 {
        Seq::empty()
    } else {
        let rest = reroll_positions(augs.drop_last(), tier, seen, slots, i);
        if reroll_eligible(augs.last(), tier, seen, slots, i) {
            rest.push((augs.len() - 1) as usize)
        } else {
            rest
        }
    }
}

proof fn lemma_reroll_positions(augs: Seq<AugmentView>, tier: Seq<char>, seen: Set<Seq<char>>, slots: Seq<AugmentView>, i: int)
    requires
        augs.len() <= usize::MAX,
    ensures
        forall|x: usize|
            reroll_positions(augs, tier, seen, slots, i).contains(x) ==> (x as int) < augs.len()
                && reroll_eligible(augs[x as int], tier, seen, slots, i),
        forall|q: int|
            0 <= q < augs.len() && reroll_eligible(#[trigger] augs[q], tier, seen, slots, i)
                ==> reroll_positions(augs, tier, seen, slots, i).contains(q as usize),
    decreases augs.len(),
{
    if augs.len() > 0 {
        let rest = augs.drop_last();
        lemma_reroll_positions(rest, tier, seen, slots, i);
        let pr = reroll_positions(rest, tier, seen, slots, i);
        let p = reroll_positions(augs, tier, seen, slots, i);
        assert forall|x: usize| p.contains(x) implies (x as int) < augs.len() && reroll_eligible(
            augs[x as int],
            tier,
            seen,
            slots,
            i,
        ) by {
            if pr.contains(x) {
                assert(rest[x as int] == augs[x as int]);
            } else {
                let k = choose|k: int| 0 <= k < p.len() && p[k] == x;
                assert(k == pr.len());
            }
        }
        assert forall|q: int| 0 <= q < augs.len() && reroll_eligible(#[trigger] augs[q], tier, seen, slots, i) implies p.contains(
            q as usize,
        ) by {
            if q < rest.len() {
                assert(rest[q] == augs[q]);
                let k = choose|k: int| 0 <= k < pr.len() && pr[k] == q as usize;
                assert(p[k] == q as usize);
            } else {
                assert(p[pr.len() as int] == q as usize);
            }
        }
    }
}

/// Whether another card than the one in slot `i` is named `name`.
fn other_slot_named(slots: &Vec<Augment>, i: usize, name: &str) -> (r: bool)
    ensures
        r == exists|j: int| 0 <= j < slots@.len() && j != i && #[trigger] slots@[j].name@ == name@,
{
    let mut j: usize = 0;
    while j < slots.len()
        invariant
            j <= slots@.len(),
            forall|q: int| 0 <= q < j && q != i ==> #[trigger] slots@[q].name@ != name@,
        decreases slots.len() - j,
    {
        if j != i && str_eq(slots[j].name.as_str(), name) {
            return true;
        }
        j += 1;
    }
    false
}

/// Every outcome of a reroll of slot `slot` (counted from 1), from the
/// shown names, cards and reroll marks before to those after.
pub open spec fn reroll_outcome(
    slot: nat,
    tier: Seq<char>,
    augs: Seq<AugmentView>,
    seen0: Set<Seq<char>>,
    slots0: Seq<AugmentView>,
    used0: Seq<bool>,
    seen: Set<Seq<char>>,
    slots: Seq<AugmentView>,
    used: Seq<bool>,
    r: RerollOutcome,
) -> bool {
    let i = slot - 1;
    let s1 = seen0.insert(slots0[i].name);
    match r {
        RerollOutcome::AlreadyUsed => {
            &&& used0[i]
            &&& slots == slots0
            &&& used == used0
            &&& seen == seen0
        },
        RerollOutcome::Replaced => {
            &&& !used0[i]
            &&& seen == s1
            &&& used == used0.update(i, true)
            &&& exists|p: int|
                0 <= p < augs.len() && reroll_eligible(#[trigger] augs[p], tier, s1, slots0, i)
                    && slots == slots0.update(i, augs[p])
        },
        RerollOutcome::PoolEmpty => {
            &&& !used0[i]
            &&& seen == s1
            &&& slots == slots0
            &&& used == used0
            &&& forall|p: int| 0 <= p < augs.len() ==> !reroll_eligible(#[trigger] augs[p], tier, s1, slots0, i)
        },
    }
}

/// Asks to replace the card in slot `slot` (counted from 1) with a random
/// augment that may replace it.  A slot can be rerolled once per round;
/// the card it held is marked as shown, replaced or not.
pub fn reroll_slot(
    slot: usize,
    tier: &str,
    slots: &mut Vec<Augment>,
    reroll_used: &mut Vec<bool>,
    seen: &mut NameSet,
    augments: &[Augment],
    rng: &mut ThreadRng,
) -> (r: RerollOutcome)
    requires
        1 <= slot <= old(slots)@.len(),
        slot <= old(reroll_used)@.len(),
    ensures
        reroll_outcome(
            slot as nat,
            tier@,
            aug_views(augments@),
            old(seen)@,
            aug_views(old(slots)@),
            old(reroll_used)@,
            final(seen)@,
            aug_views(final(slots)@),
            final(reroll_used)@,
            r,
        ),
{
    let i = slot - 1;
    if reroll_used[i] {
        return RerollOutcome::AlreadyUsed;
    }
    seen.insert(slots[i].name.as_str());
    let ghost av = aug_views(augments@);
    let ghost before = aug_views(slots@);
    let mut pool: Vec<usize> = Vec::new();
    let mut q: usize = 0;
    while q < augments.len()
        invariant
            q <= augments@.len(),
            av == aug_views(augments@),
            before == aug_views(slots@),
            i < slots@.len(),
            pool@ == reroll_positions(av.take(q as int), tier@, seen@, before, i as int),
        decreases augments.len() - q,
    {
        let a = &augments[q];
        assert(av.take(q + 1).drop_last() =~= av.take(q as int));
        assert(av.take(q + 1).last() == a@);
        let taken = other_slot_named(slots, i, a.name.as_str());
        proof {
            assert(taken == !(forall|j: int| 0 <= j < before.len() && j != i ==> #[trigger] before[j].name != a@.name)) by {
                if taken {
                    let j = choose|j: int| 0 <= j < slots@.len() && j != i && #[trigger] slots@[j].name@ == a.name@;
                    assert(before[j].name == a@.name);
                } else {
                    assert forall|j: int| 0 <= j < before.len() && j != i implies #[trigger] before[j].name != a@.name by {
                        assert(before[j] == slots@[j]@);
                    }
                }
            }
        }
        if str_eq(a.tier.as_str(), tier) && !seen.contains(a.name.as_str()) && !taken {
            pool.push(q);
        }
        q += 1;
    }
    assert(av.take(q as int) =~= av);
    proof {
        lemma_reroll_positions(av, tier@, seen@, before, i as int);
    }
    match choose_one_position(rng, pool.as_slice()) {
        Some(p) => {
            let fresh = augments[p].clone();
            slots.set(i, fresh);
            reroll_used.set(i, true);
            assert(aug_views(slots@) =~= before.update(i as int, av[p as int]));
            RerollOutcome::Replaced
        },
        None => {
            assert forall|p: int| 0 <= p < av.len() implies !reroll_eligible(#[trigger] av[p], tier@, seen@, before, i as int) by {
                if reroll_eligible(av[p], tier@, seen@, before, i as int) {
                    assert(pool@.contains(p as usize));
                }
            }
            RerollOutcome::PoolEmpty
        },
    }
}

/// Takes the card in slot `slot` (counted from 1): every card on the table
/// is now shown, and the chosen one is returned.
pub fn take_slot(slot: usize, slots: &Vec<Augment>, seen: &mut NameSet) -> (chosen: Augment)
    requires
        1 <= slot <= slots@.len(),
    ensures
        chosen@ == slots@[slot - 1]@,
        final(seen)@ == old(seen)@ + names_of(aug_views(slots@)).to_set(),
{
    let chosen = slots[slot - 1].clone();
    let ghost names = names_of(aug_views(slots@));
    let mut k: usize = 0;
    while k < slots.len()
        invariant
            k <= slots@.len(),
            names == names_of(aug_views(slots@)),
            seen@ == old(seen)@ + names.take(k as int).to_set(),
        decreases slots.len() - k,
    {
        seen.insert(slots[k].name.as_str());
        proof {
            assert(names.take(k + 1) =~= names.take(k as int).push(names[k as int]));
            crate::draw::lemma_push_to_set(names.take(k as int), names[k as int]);
        }
        assert(seen@ =~= old(seen)@ + names.take(k + 1).to_set());
        k += 1;
    }
    assert(names.take(k as int) =~= names);
    chosen
}

/// Every outcome of adding the chosen augment to the picks.
pub open spec fn commit_outcome(
    chosen: AugmentView,
    augs: Seq<AugmentView>,
    seen0: Set<Seq<char>>,
    picked0: Seq<AugmentView>,
    seen: Set<Seq<char>>,
    picked: Seq<AugmentView>,
    msgs: Seq<Seq<char>>,
) -> bool {
    if is_special_name(chosen.name) {
        special_outcome(chosen, augs, seen0, picked0, seen, picked, true, msgs)
    } else {
        &&& picked == picked0.push(chosen)
        &&& seen == seen0
        &&& msgs.len() == 0
    }
}

/// Adds the chosen augment to the picks: a special augment applies its
/// effect (and joins the picks itself), any other is simply added.  Returns
/// the lines that announce a special effect.
pub fn commit_pick(
    chosen: &Augment,
    picked: &mut Vec<Augment>,
    seen: &mut NameSet,
    augments: &[Augment],
    rng: &mut ThreadRng,
) -> (msgs: Vec<String>)
    ensures
        commit_outcome(
            chosen@,
            aug_views(augments@),
            old(seen)@,
            aug_views(old(picked)@),
            final(seen)@,
            aug_views(final(picked)@),
            msgs.deep_view(),
        ),
        !is_special_name(chosen@.name) ==> *final(rng) == *old(rng),
{
    let (handled, msgs) = handle_special(chosen, picked, seen, augments, rng);
    if !handled {
        let ghost before = aug_views(picked@);
        picked.push(chosen.clone());
        assert(aug_views(picked@) =~= before.push(chosen@));
    }
    assert(msgs@.len() == 0 ==> msgs.deep_view() =~= Seq::<Seq<char>>::empty());
    msgs
}

/// What the game does after one line of input during a round.
pub enum RoundAction {
    /// Leave the game, with this farewell.
    Quit(String),
    /// The round ends with this augment taken.
    Chosen(Augment),
    /// A reroll was asked for: how it went, and what to tell the player.
    Rerolled(RerollOutcome, Option<String>),
    /// The input asked for nothing: this notice says so.
    Refused(String),
}

/// The farewell shown when the player quits.
pub open spec fn farewell_spec() -> Seq<char> {
    "\n    종료합니다."@
}

/// The notice shown for input that asks for nothing.
pub open spec fn refusal_spec() -> Seq<char> {
    notice_spec("잘못된 입력. 예: 1, 2, 3, r1, r2, r3, q"@)
}

/// Whether `line` is the feedback that follows a reroll with outcome `o`.
pub open spec fn is_reroll_feedback(line: Option<String>, o: RerollOutcome) -> bool {
    match o {
        RerollOutcome::Replaced => line is None,
        RerollOutcome::AlreadyUsed => line matches Some(t) && t@ == notice_spec("이미 리롤한 슬롯입니다."@),
        RerollOutcome::PoolEmpty => line matches Some(t) && t@ == notice_spec("이 등급의 풀이 비었습니다."@),
    }
}

/// What ends the game when a round's table could not be filled: a notice
/// when fewer cards than a full table were dealt, `None` otherwise.
pub fn short_table_notice(slots: &Vec<Augment>) -> (r: Option<String>)
    ensures
        slots@.len() < CHOICES_PER_PICK <==> r is Some,
        r matches Some(t) ==> t@ == notice_spec("이 등급에 남은 증강이 부족합니다. 게임 종료."@),
{
    if slots.len() < CHOICES_PER_PICK {
        Some(notice("이 등급에 남은 증강이 부족합니다. 게임 종료."))
    } else {
        None
    }
}

/// One step of a round: the normalized input line `inp` is read as a
/// command and carried out on the table of cards.  A pick ends the round and
/// marks the whole table as shown; a reroll replaces at most one card; "q"
/// and anything else change nothing.
pub fn round_step(
    inp: &str,
    tier: &str,
    slots: &mut Vec<Augment>,
    reroll_used: &mut Vec<bool>,
    seen: &mut NameSet,
    augments: &[Augment],
    rng: &mut ThreadRng,
) -> (a: RoundAction)
    requires
        old(slots)@.len() >= CHOICES_PER_PICK,
        old(reroll_used)@.len() >= CHOICES_PER_PICK,
    ensures
        match command_spec(inp@) {
            Command::Reroll(k) => a matches RoundAction::Rerolled(o, line) && {
                &&& reroll_outcome(
                    k as nat,
                    tier@,
                    aug_views(augments@),
                    old(seen)@,
                    aug_views(old(slots)@),
                    old(reroll_used)@,
                    final(seen)@,
                    aug_views(final(slots)@),
                    final(reroll_used)@,
                    o,
                )
                &&& is_reroll_feedback(line, o)
            },
            Command::Pick(n) => {
                &&& a matches RoundAction::Chosen(c) && c@ == old(slots)@[n - 1]@
                &&& final(seen)@ == old(seen)@ + names_of(aug_views(old(slots)@)).to_set()
                &&& *final(slots) == *old(slots)
                &&& *final(reroll_used) == *old(reroll_used)
                &&& *final(rng) == *old(rng)
            },
            Command::Quit => {
                &&& a matches RoundAction::Quit(t) && t@ == farewell_spec()
                &&& final(seen)@ == old(seen)@
                &&& *final(slots) == *old(slots)
                &&& *final(reroll_used) == *old(reroll_used)
                &&& *final(rng) == *old(rng)
            },
            Command::Invalid => {
                &&& a matches RoundAction::Refused(t) && t@ == refusal_spec()
                &&& final(seen)@ == old(seen)@
                &&& *final(slots) == *old(slots)
                &&& *final(reroll_used) == *old(reroll_used)
                &&& *final(rng) == *old(rng)
            },
        },
{
    match parse_command(inp) {
        Command::Quit => RoundAction::Quit(to_owned_string("\n    종료합니다.")),
        Command::Pick(n) => RoundAction::Chosen(take_slot(n, slots, seen)),
        Command::Reroll(k) => {
            let o = reroll_slot(k, tier, slots, reroll_used, seen, augments, rng);
            let line = reroll_feedback(o);
            RoundAction::Rerolled(o, line)
        },
        Command::Invalid => RoundAction::Refused(notice("잘못된 입력. 예: 1, 2, 3, r1, r2, r3, q")),
    }
}

/// One of the champions, at random; `None` when there is none.
pub fn pick_champion<'a>(champions: &'a [Champion], rng: &mut ThreadRng) -> (r: Option<&'a Champion>)
    ensures
        r is None <==> champions@.len() == 0,
        r matches Some(c) ==> champions@.contains(*c),
{
    let mut positions: Vec<usize> = Vec::new();
    let mut i: usize = 0;
    while i < champions.len()
        invariant
            i <= champions@.len(),
            positions@.len() == i,
            forall|k: int| 0 <= k < i ==> #[trigger] positions@[k] == k,
        decreases champions.len() - i,
    {
        positions.push(i);
        i += 1;
    }
    match choose_one_position(rng, positions.as_slice()) {
        Some(p) => {
            proof {
                let k = choose|k: int| 0 <= k < positions@.len() && positions@[k] == p;
                assert(positions@[k] == k);
            }
            assert(champions@.contains(champions@[p as int]));
            Some(&champions[p])
        },
        None => None,
    }
}

/// The lines that present the champion at the start of a game.
pub open spec fn champion_intro_spec(c: Champion) -> Seq<Seq<char>> {
    seq![
        Seq::empty(),
        "    ▸ 챔피언:  "@ + BOLD@ + c.name@ + RESET@,
        "               "@ + DIM@ + c.title@ + RESET@,
    ]
}

/// The lines that present the champion at the start of a game.
pub fn champion_intro_lines(c: &Champion) -> (lines: Vec<String>)
    ensures
        lines.deep_view() == champion_intro_spec(*c),
{
    let mut name = to_owned_string("    ▸ 챔피언:  ");
    name.append(BOLD);
    name.append(c.name.as_str());
    name.append(RESET);
    let mut title = to_owned_string("               ");
    title.append(DIM);
    title.append(c.title.as_str());
    title.append(RESET);
    let mut lines: Vec<String> = Vec::new();
    lines.push(String::new());
    lines.push(name);
    lines.push(title);
    assert(lines.deep_view() =~= champion_intro_spec(*c));
    lines
}

/// The line that announces the chosen augment.
pub open spec fn chosen_line_spec(a: AugmentView) -> Seq<char> {
    "\n    → "@ + tier_color_spec(a.tier) + "["@ + tier_label_spec(a.tier) + "]"@ + RESET@ + " "@ + BOLD@
        + a.name + RESET@ + " 선택!"@
}

/// The line that announces the chosen augment.
pub fn chosen_line(a: &Augment) -> (r: String)
    ensures
        r@ == chosen_line_spec(a@),
{
    let mut r = to_owned_string("\n    → ");
    r.append(tier_color(a.tier.as_str()));
    r.append("[");
    r.append(tier_label(a.tier.as_str()));
    r.append("]");
    r.append(RESET);
    r.append(" ");
    r.append(BOLD);
    r.append(a.name.as_str());
    r.append(RESET);
    r.append(" 선택!");
    r
}

/// A dim notice, indented like the rest of the round.
pub open spec fn notice_spec(text: Seq<char>) -> Seq<char> {
    "    "@ + DIM@ + text + RESET@
}

/// A dim notice, indented like the rest of the round.
pub fn notice(text: &str) -> (r: String)
    ensures
        r@ == notice_spec(text@),
{
    let mut r = to_owned_string("    ");
    r.append(DIM);
    r.append(text);
    r.append(RESET);
    r
}

/// What a reroll request tells the player: nothing when the card was
/// replaced, otherwise why it was not.
pub fn reroll_feedback(outcome: RerollOutcome) -> (r: Option<String>)
    ensures
        match outcome {
            RerollOutcome::Replaced => r is None,
            RerollOutcome::AlreadyUsed => r matches Some(t) && t@ == notice_spec("이미 리롤한 슬롯입니다."@),
            RerollOutcome::PoolEmpty => r matches Some(t) && t@ == notice_spec("이 등급의 풀이 비었습니다."@),
        },
{
    match outcome {
        RerollOutcome::Replaced => None,
        RerollOutcome::AlreadyUsed => Some(notice("이미 리롤한 슬롯입니다.")),
        RerollOutcome::PoolEmpty => Some(notice("이 등급의 풀이 비었습니다.")),
    }
}

/// The columns given to descriptions and effects in the final build.
pub open spec fn summary_width() -> nat {
    58
}

/// An indented, dim line of the final build.
pub open spec fn summary_text_line(t: Seq<char>) -> Seq<char> {
    "         "@ + DIM@ + t + RESET@
}

/// The lines of the `i`-th (from 0) picked augment in the final build: its
/// number, tier and name, then its wrapped description.
pub open spec fn augment_entry_spec(i: nat, a: AugmentView) -> Seq<Seq<char>> {
    let wl = wrap_spec(a.description, summary_width());
    seq![
        "      "@ + BOLD@ + decimal(i + 1) + ". ["@ + tier_color_spec(a.tier) + tier_label_spec(a.tier)
            + RESET@ + "]"@ + RESET@ + "  "@ + BOLD@ + a.name + RESET@,
    ] + Seq::new(wl.len(), |k: int| summary_text_line(wl[k]))
}

/// The entries of all picked augments, in order.
pub open spec fn augment_entries_spec(picked: Seq<AugmentView>) -> Seq<Seq<char>>
    decreases picked.len(),
{
    if picked.len() == 0 {
        Seq::empty()
    } else {
        augment_entries_spec(picked.drop_last()) + augment_entry_spec(
            (picked.len() - 1) as nat,
            picked.last(),
        )
    }
}

/// The lines of a synergy in the final build: when a stage is reached, the
/// synergy in green with that stage and its wrapped effect; otherwise the
/// synergy dimmed as not active.
pub open spec fn synergy_entry_spec(s: SynergyView, count: nat) -> Seq<Seq<char>> {
    let max = max_threshold(s.stages);
    match current_stage_spec(s.stages, count) {
        Some(i) => {
            let st = s.stages[i];
            let wl = wrap_spec(st.effect, summary_width());
            seq![
                "      "@ + GREEN@ + "◆ "@ + BOLD@ + s.name + RESET@ + "  ("@ + decimal(count) + "/"@
                    + decimal(max) + ", "@ + decimal(st.threshold as nat) + "단계 활성)"@ + RESET@,
            ] + Seq::new(wl.len(), |k: int| summary_text_line(wl[k]))
        },
        None => seq![
            "      "@ + DIM@ + "◇ "@ + s.name + " ("@ + decimal(count) + "/"@ + decimal(max)
                + ", 미활성)"@ + RESET@,
        ],
    }
}

/// The entries of the synergies listed by a progress, in order.
pub open spec fn synergy_entries_spec(syns: Seq<SynergyView>, p: Seq<(int, nat)>) -> Seq<Seq<char>>
    decreases p.len(),
{
    if p.len() == 0 {
        Seq::empty()
    } else {
        synergy_entries_spec(syns, p.drop_last()) + synergy_entry_spec(syns[p.last().0], p.last().1)
    }
}

/// The final build, after its header: the champion, every picked augment
/// and every synergy they advanced.
pub open spec fn final_summary_spec(c: Champion, picked: Seq<AugmentView>, syns: Seq<SynergyView>) -> Seq<Seq<char>> {
    let names = picked.map_values(|a: AugmentView| a.name);
    let p = progress_spec(syns, names);
    seq![
        Seq::empty(),
        "    챔피언:  "@ + BOLD@ + c.name@ + RESET@,
        "             "@ + DIM@ + c.title@ + RESET@,
        Seq::empty(),
        "    증강:"@,
    ] + augment_entries_spec(picked) + (if p.len() > 0 {
        seq![Seq::empty(), "    시너지:"@] + synergy_entries_spec(syns, p)
    } else {
        Seq::empty()
    }) + seq![Seq::empty()]
}

/// Appends the wrapped lines of `text` in the final build's style.
fn push_summary_text(lines: &mut Vec<String>, text: &str)
    ensures
        ({
            let wl = wrap_spec(text@, summary_width());
            final(lines).deep_view() == old(lines).deep_view() + Seq::new(
                wl.len(),
                |k: int| summary_text_line(wl[k]),
            )
        }),
{
    let ghost start = lines.deep_view();
    let wrapped = wrap_text(text, 58);
    let ghost wl = wrap_spec(text@, summary_width());
    let ghost rows = Seq::new(wl.len(), |k: int| summary_text_line(wl[k]));
    let mut i: usize = 0;
    while i < wrapped.len()
        invariant
            i <= wrapped@.len(),
            wrapped.deep_view() == wl,
            rows == Seq::new(wl.len(), |k: int| summary_text_line(wl[k])),
            lines.deep_view() == start + rows.take(i as int),
        decreases wrapped.len() - i,
    {
        let mut line = to_owned_string("         ");
        line.append(DIM);
        line.append(wrapped[i].as_str());
        line.append(RESET);
        assert(wrapped.deep_view()[i as int] == wrapped@[i as int]@);
        let ghost before = lines.deep_view();
        let ghost lv = line@;
        lines.push(line);
        assert(lines.deep_view() =~= before.push(lv));
        assert(start + rows.take(i + 1) =~= (start + rows.take(i as int)).push(rows[i as int]));
        i += 1;
    }
    assert(rows.take(i as int) =~= rows);
}

/// Appends the entry of one synergy.
fn push_synergy_entry(lines: &mut Vec<String>, s: &Synergy, count: usize)
    ensures
        final(lines).deep_view() == old(lines).deep_view() + synergy_entry_spec(s@, count as nat),
{
    let max_th = last_threshold(s);
    let ghost start = lines.deep_view();
    match current_stage(s, count) {
        Some(st) => {
            let mut head = to_owned_string("      ");
            head.append(GREEN);
            head.append("◆ ");
            head.append(BOLD);
            head.append(s.name.as_str());
            head.append(RESET);
            head.append("  (");
            push_decimal(&mut head, count);
            head.append("/");
            push_decimal(&mut head, max_th);
            head.append(", ");
            push_decimal(&mut head, st.threshold);
            head.append("단계 활성)");
            head.append(RESET);
            let ghost hv = head@;
            lines.push(head);
            assert(lines.deep_view() =~= start.push(hv));
            push_summary_text(lines, st.effect.as_str());
            let ghost wl = wrap_spec(st.effect@, summary_width());
            assert(start.push(hv) + Seq::new(wl.len(), |k: int| summary_text_line(wl[k])) =~= start
                + synergy_entry_spec(s@, count as nat));
        },
        None => {
            let mut head = to_owned_string("      ");
            head.append(DIM);
            head.append("◇ ");
            head.append(s.name.as_str());
            head.append(" (");
            push_decimal(&mut head, count);
            head.append("/");
            push_decimal(&mut head, max_th);
            head.append(", 미활성)");
            head.append(RESET);
            let ghost hv = head@;
            lines.push(head);
            assert(lines.deep_view() =~= start + synergy_entry_spec(s@, count as nat));
        },
    }
}

/// The final build shown at the end of a game, after its header.
pub fn final_summary_lines(c: &Champion, picked: &Vec<Augment>, synergies: &[Synergy]) -> (lines: Vec<String>)
    ensures
        lines.deep_view() == final_summary_spec(*c, aug_views(picked@), syn_views(synergies@)),
{
    let ghost pv = aug_views(picked@);
    let ghost sv = syn_views(synergies@);
    let mut lines: Vec<String> = Vec::new();
    lines.push(String::new());
    let mut name = to_owned_string("    챔피언:  ");
    name.append(BOLD);
    name.append(c.name.as_str());
    name.append(RESET);
    lines.push(name);
    let mut title = to_owned_string("             ");
    title.append(DIM);
    title.append(c.title.as_str());
    title.append(RESET);
    lines.push(title);
    lines.push(String::new());
    lines.push(to_owned_string("    증강:"));
    let ghost head = lines.deep_view();
    let mut i: usize = 0;
    assert(pv.take(0) =~= Seq::<AugmentView>::empty());
    assert(head + augment_entries_spec(pv.take(0)) =~= head);
    while i < picked.len()
        invariant
            i <= picked@.len(),
            pv == aug_views(picked@),
            lines.deep_view() == head + augment_entries_spec(pv.take(i as int)),
        decreases picked.len() - i,
    {
        let a = &picked[i];
        assert(pv.take(i + 1).drop_last() =~= pv.take(i as int));
        assert(pv.take(i + 1).last() == a@);
        let ghost before = lines.deep_view();
        let mut entry = to_owned_string("      ");
        entry.append(BOLD);
        push_decimal(&mut entry, i + 1);
        entry.append(". [");
        entry.append(tier_color(a.tier.as_str()));
        entry.append(tier_label(a.tier.as_str()));
        entry.append(RESET);
        entry.append("]");
        entry.append(RESET);
        entry.append("  ");
        entry.append(BOLD);
        entry.append(a.name.as_str());
        entry.append(RESET);
        let ghost ev = entry@;
        lines.push(entry);
        assert(lines.deep_view() =~= before.push(ev));
        push_summary_text(&mut lines, a.description.as_str());
        let ghost wl = wrap_spec(a@.description, summary_width());
        assert(before.push(ev) + Seq::new(wl.len(), |k: int| summary_text_line(wl[k])) =~= before
            + augment_entry_spec(i as nat, a@));
        assert(head + augment_entries_spec(pv.take(i + 1)) =~= before + augment_entry_spec(i as nat, a@));
        i += 1;
    }
    assert(pv.take(i as int) =~= pv);
    let ghost mid = lines.deep_view();
    let progress = synergy_progress(synergies, picked.as_slice());
    let ghost p = progress_spec(sv, names_of(pv));
    assert(names_of(pv) =~= pv.map_values(|a: AugmentView| a.name));
    if progress.len() > 0 {
        lines.push(String::new());
        lines.push(to_owned_string("    시너지:"));
        let ghost head2 = lines.deep_view();
        assert(p.take(0) =~= Seq::<(int, nat)>::empty());
        assert(head2 + synergy_entries_spec(sv, p.take(0)) =~= head2);
        let mut k: usize = 0;
        while k < progress.len()
            invariant
                k <= progress@.len(),
                progress@.len() == p.len(),
                sv == syn_views(synergies@),
                forall|q: int|
                    0 <= q < p.len() ==> {
                        &&& 0 <= p[q].0 < synergies@.len()
                        &&& *progress@[q].0 == synergies@[p[q].0]
                        &&& progress@[q].1 == p[q].1
                    },
                lines.deep_view() == head2 + synergy_entries_spec(sv, p.take(k as int)),
            decreases progress.len() - k,
        {
            let (s, cnt) = progress[k];
            assert(p.take(k + 1).drop_last() =~= p.take(k as int));
            assert(p.take(k + 1).last() == p[k as int]);
            assert(sv[p[k as int].0] == s@);
            let ghost before = lines.deep_view();
            push_synergy_entry(&mut lines, s, cnt);
            assert(head2 + synergy_entries_spec(sv, p.take(k + 1)) =~= before + synergy_entry_spec(
                s@,
                cnt as nat,
            ));
            k += 1;
        }
        assert(p.take(k as int) =~= p);
        assert(lines.deep_view() =~= mid + (seq![Seq::<char>::empty(), "    시너지:"@] + synergy_entries_spec(sv, p)));
    } else {
        assert(lines.deep_view() =~= mid + Seq::<Seq<char>>::empty());
    }
    let ghost tail = if p.len() > 0 {
        seq![Seq::<char>::empty(), "    시너지:"@] + synergy_entries_spec(sv, p)
    } else {
        Seq::<Seq<char>>::empty()
    };
    assert(lines.deep_view() == mid + tail);
    let ghost pre_end = lines.deep_view();
    lines.push(String::new());
    assert(lines.deep_view() =~= pre_end.push(Seq::empty()));
    assert(progress_spec(sv, pv.map_values(|a: AugmentView| a.name)) == p);
    assert(head =~= seq![
        Seq::empty(),
        "    챔피언:  "@ + BOLD@ + c.name@ + RESET@,
        "             "@ + DIM@ + c.title@ + RESET@,
        Seq::empty(),
        "    증강:"@,
    ]);
    assert(lines.deep_view() =~= head + augment_entries_spec(pv) + tail + seq![Seq::<char>::empty()]);
    assert(lines.deep_view() =~= final_summary_spec(*c, pv, sv));
    lines
}

} // verus!
