//! Random draws: tiers, augments of a tier, and the effects of the special
//! augments that draw more augments.

use vstd::prelude::*;
use vstd::string::StringExecFns;
use rand::rngs::ThreadRng;
use rand::seq::SliceRandom;
use rand::Rng;
use crate::model::{Augment, AugmentView, names_of};
use crate::style::{BOLD, CYAN, RESET, tier_color, tier_color_spec, tier_label, tier_label_spec};
use crate::synergy::{aug_views, is_transition_augment, is_transition_spec};
use crate::text::{push_decimal, decimal, str_eq, to_owned_string};

verus! {

/// Declares rand's `ThreadRng` so that a generator can be handed through;
/// nothing of its state is modelled.
#[verifier::external_type_specification]
#[verifier::external_body]
pub struct ExThreadRng(ThreadRng);

/// Calls `Rng::gen_range(0..n)` on a thread generator; rand panics on an
/// empty range, so `n` must be positive.  The claim is only that the number
/// lies in `0..n`; which one it is rests on chance.
#[verifier::external_body]
fn random_below(rng: &mut ThreadRng, n: u32) -> (r: u32)
    requires
        n > 0,
    ensures
        r < n,
{
    rng.gen_range(0..n)
}

/// Calls `SliceRandom::choose` of rand on a slice of positions.  The claim
/// is that the answer is `None` exactly for an empty slice, and otherwise
/// one of the slice's items; which one rests on chance.
#[verifier::external_body]
pub(crate) fn choose_one_position(rng: &mut ThreadRng, items: &[usize]) -> (r: Option<usize>)
    ensures
        r is None <==> items@.len() == 0,
        r matches Some(x) ==> items@.contains(x),
{
    items.choose(rng).copied()
}

/// Calls `SliceRandom::choose_multiple` of rand on a slice of positions and
/// collects what it yields.  Its source takes `min(amount, len)` distinct
/// positions of the slice (rand's `index::sample`): so the result has that
/// length, holds items of the slice, and repeats none when the slice
/// repeats none.  Which items, and their order, rest on chance.
#[verifier::external_body]
pub(crate) fn choose_positions(rng: &mut ThreadRng, items: &[usize], amount: usize) -> (r: Vec<usize>)
    ensures
        r@.len() == if amount < items@.len() { amount as int } else { items@.len() as int },
        forall|k: int| 0 <= k < r@.len() ==> items@.contains(#[trigger] r@[k]),
        items@.no_duplicates() ==> r@.no_duplicates(),
{
    items.choose_multiple(rng, amount).copied().collect()
}

/// Adding an item to a sequence adds it to the sequence's set.
pub proof fn lemma_push_to_set(s: Seq<Seq<char>>, x: Seq<char>)
    ensures
        s.push(x).to_set() == s.to_set().insert(x),
{
    s.lemma_push_to_set_commute(x);
}

/// A set of augment names, such as those already shown to the player.
pub struct NameSet {
    pub names: Vec<String>,
}

impl View for NameSet {
    type V = Set<Seq<char>>;

    open spec fn view(&self) -> Set<Seq<char>> {
        self.names.deep_view().to_set()
    }
}

impl NameSet {
    /// The empty set.
    pub fn new() -> (r: NameSet)
        ensures
            r@ == Set::<Seq<char>>::empty(),
    {
        let r = NameSet { names: Vec::new() };
        assert(r@ =~= Set::<Seq<char>>::empty());
        r
    }

    /// Whether the set holds `name`.
    pub fn contains(&self, name: &str) -> (r: bool)
        ensures
            r == self@.contains(name@),
    {
        crate::synergy::contains_name(&self.names, name)
    }

    /// Adds `name` to the set.
    pub fn insert(&mut self, name: &str)
        ensures
            final(self)@ == old(self)@.insert(name@),
    {
        if !self.contains(name) {
            let ghost before = self.names.deep_view();
            self.names.push(to_owned_string(name));
            assert(self.names.deep_view() =~= before.push(name@));
        }
        proof {
            lemma_push_to_set(old(self).names.deep_view(), name@);
        }
        assert(self@ =~= old(self)@.insert(name@));
    }
}

/// The names of the picked augments, as a set.
pub fn picked_names(picked: &Vec<Augment>) -> (r: NameSet)
    ensures
        r@ == names_of(aug_views(picked@)).to_set(),
{
    let mut r = NameSet::new();
    let mut i: usize = 0;
    while i < picked.len()
        invariant
            i <= picked@.len(),
            r@ == names_of(aug_views(picked@.take(i as int))).to_set(),
        decreases picked.len() - i,
    {
        assert(names_of(aug_views(picked@.take(i + 1))) =~= names_of(aug_views(picked@.take(i as int))).push(
            picked@[i as int].name@,
        ));
        r.insert(picked[i].name.as_str());
        proof {
            lemma_push_to_set(names_of(aug_views(picked@.take(i as int))), picked@[i as int].name@);
        }
        i += 1;
    }
    assert(picked@.take(i as int) =~= picked@);
    r
}

/// The tier that a roll in `0..100` gives: half the rolls silver, 35 in a
/// hundred gold, the rest prism.
pub open spec fn tier_for_roll_spec(roll: nat) -> Seq<char> {
    if roll < 50 {
        "silver"@
    } else if roll < 85 {
        "gold"@
    } else {
        "prism"@
    }
}

/// One of the three tiers.
pub open spec fn is_tier_name(t: Seq<char>) -> bool {
    t == "silver"@ || t == "gold"@ || t == "prism"@
}

/// The tier that a roll in `0..100` gives.
pub fn tier_for_roll(roll: u32) -> (t: &'static str)
    ensures
        t@ == tier_for_roll_spec(roll as nat),
{
    if roll < 50 {
        "silver"
    } else if roll < 85 {
        "gold"
    } else {
        "prism"
    }
}

/// A random tier: silver half of the time, gold 35% and prism 15%.
pub fn random_tier(rng: &mut ThreadRng) -> (t: &'static str)
    ensures
        exists|roll: nat| roll < 100 && t@ == tier_for_roll_spec(roll),
        is_tier_name(t@),
{
    let roll = random_below(rng, 100);
    let t = tier_for_roll(roll);
    assert(t@ == tier_for_roll_spec(roll as nat));
    t
}

/// The name of the augment that turns every earlier pick into a prism.
pub open spec fn pandora_name() -> Seq<char> {
    "판도라의 상자"@
}

/// An augment that a random draw of `tier` may give: of that tier, never
/// shown (`seen`), not excluded, and neither a transition nor the box.
pub open spec fn eligible(a: AugmentView, tier: Seq<char>, seen: Set<Seq<char>>, excluded: Set<Seq<char>>) -> bool {
    &&& a.tier == tier
    &&& !seen.contains(a.name)
    &&& !excluded.contains(a.name)
    &&& !is_transition_spec(a.name)
    &&& a.name != pandora_name()
}

/// Some augment of `augs` may be drawn.
pub open spec fn any_eligible(augs: Seq<AugmentView>, tier: Seq<char>, seen: Set<Seq<char>>, excluded: Set<Seq<char>>) -> bool {
    exists|i: int| 0 <= i < augs.len() && eligible(#[trigger] augs[i], tier, seen, excluded)
}

/// Positions, in order, of the augments that may be drawn.
pub open spec fn eligible_positions(augs: Seq<AugmentView>, tier: Seq<char>, seen: Set<Seq<char>>, excluded: Set<Seq<char>>) -> Seq<usize>
    decreases augs.len(),
{
    if augs.len() == 0 {
        Seq::empty()
    } else {
        let rest = eligible_positions(augs.drop_last(), tier, seen, excluded);
        if eligible(augs.last(), tier, seen, excluded) {
            rest.push((augs.len() - 1) as usize)
        } else {
            rest
        }
    }
}

/// A position lies in `eligible_positions` exactly when it holds an
/// augment that may be drawn.
pub proof fn lemma_eligible_positions(augs: Seq<AugmentView>, tier: Seq<char>, seen: Set<Seq<char>>, excluded: Set<Seq<char>>)
    requires
        augs.len() <= usize::MAX,
    ensures
        forall|i: int|
            0 <= i < augs.len() ==> (eligible_positions(augs, tier, seen, excluded).contains(i as usize)
                <==> eligible(#[trigger] augs[i], tier, seen, excluded)),
        forall|x: usize|
            eligible_positions(augs, tier, seen, excluded).contains(x) ==> (x as int) < augs.len(),
        eligible_positions(augs, tier, seen, excluded).no_duplicates(),
    decreases augs.len(),
{
    if augs.len() > 0 {
        let rest = augs.drop_last();
        lemma_eligible_positions(rest, tier, seen, excluded);
        let pr = eligible_positions(rest, tier, seen, excluded);
        let p = eligible_positions(augs, tier, seen, excluded);
        assert forall|i: int| 0 <= i < augs.len() implies (p.contains(i as usize) <==> eligible(
            #[trigger] augs[i],
            tier,
            seen,
            excluded,
        )) by {
            if i < rest.len() {
                assert(rest[i] == augs[i]);
                if p.contains(i as usize) && !pr.contains(i as usize) {
                    let k = choose|k: int| 0 <= k < p.len() && p[k] == i as usize;
                    assert(k == pr.len());
                }
                if pr.contains(i as usize) {
                    let k = choose|k: int| 0 <= k < pr.len() && pr[k] == i as usize;
                    assert(p[k] == i as usize);
                }
            } else {
                if eligible(augs.last(), tier, seen, excluded) {
                    assert(p[pr.len() as int] == i as usize);
                } else {
                    assert(!pr.contains(i as usize));
                }
            }
        }
        assert forall|x: usize| p.contains(x) implies (x as int) < augs.len() by {
            if pr.contains(x) {
            } else {
                let k = choose|k: int| 0 <= k < p.len() && p[k] == x;
                assert(k == pr.len());
            }
        }
        if eligible(augs.last(), tier, seen, excluded) {
            assert(!pr.contains((augs.len() - 1) as usize));
        }
    }
}

/// Positions, in order, of the augments that a draw of `tier` may give.
pub fn eligible_indices(tier: &str, augments: &[Augment], seen: &NameSet, excluded: &NameSet) -> (r: Vec<usize>)
    ensures
        r@ == eligible_positions(aug_views(augments@), tier@, seen@, excluded@),
{
    let ghost av = aug_views(augments@);
    let mut r: Vec<usize> = Vec::new();
    let mut i: usize = 0;
    while i < augments.len()
        invariant
            i <= augments@.len(),
            av == aug_views(augments@),
            r@ == eligible_positions(av.take(i as int), tier@, seen@, excluded@),
        decreases augments.len() - i,
    {
        let a = &augments[i];
        assert(av.take(i + 1).drop_last() =~= av.take(i as int));
        assert(av.take(i + 1).last() == a@);
        let ok = str_eq(a.tier.as_str(), tier) && !seen.contains(a.name.as_str()) && !excluded.contains(
            a.name.as_str(),
        ) && !is_transition_augment(a.name.as_str()) && !str_eq(a.name.as_str(), "판도라의 상자");
        if ok {
            r.push(i);
        }
        i += 1;
    }
    assert(av.take(i as int) =~= av);
    r
}

/// The outcome of a draw: `None` exactly when no augment may be drawn,
/// otherwise one that may.
pub open spec fn is_draw_of(r: Option<AugmentView>, augs: Seq<AugmentView>, tier: Seq<char>, seen: Set<Seq<char>>, excluded: Set<Seq<char>>) -> bool {
    match r {
        None => !any_eligible(augs, tier, seen, excluded),
        Some(a) => exists|i: int|
            0 <= i < augs.len() && #[trigger] augs[i] == a && eligible(augs[i], tier, seen, excluded),
    }
}

/// A random augment of `tier` that was never shown, is not excluded, and is
/// neither a transition nor the box; `None` when there is none.
pub fn pick_random_of_tier(
    tier: &str,
    augments: &[Augment],
    seen: &NameSet,
    excluded: &NameSet,
    rng: &mut ThreadRng,
) -> (r: Option<Augment>)
    ensures
        is_draw_of(
            match r { Some(a) => Some(a@), None => None },
            aug_views(augments@),
            tier@,
            seen@,
            excluded@,
        ),
{
    let ghost av = aug_views(augments@);
    let avail = eligible_indices(tier, augments, seen, excluded);
    proof {
        lemma_eligible_positions(av, tier@, seen@, excluded@);
    }
    match choose_one_position(rng, avail.as_slice()) {
        Some(i) => {
            assert(avail@.contains(i));
            assert(av[i as int] == augments@[i as int]@);
            Some(augments[i].clone())
        },
        None => {
            assert forall|i: int| 0 <= i < av.len() implies !eligible(#[trigger] av[i], tier@, seen@, excluded@) by {
                if eligible(av[i], tier@, seen@, excluded@) {
                    assert(avail@.contains(i as usize));
                }
            }
            None
        },
    }
}

/// One draw of `tier` into the picks: the augments that were picked are
/// excluded, and the drawn one, if any, joins both the picks and the shown
/// names.  When none may be drawn nothing changes.
pub open spec fn draw_step(
    augs: Seq<AugmentView>,
    tier: Seq<char>,
    seen: Set<Seq<char>>,
    picked: Seq<AugmentView>,
    seen2: Set<Seq<char>>,
    picked2: Seq<AugmentView>,
) -> bool {
    let excluded = names_of(picked).to_set();
    ||| seen2 == seen && picked2 == picked && !any_eligible(augs, tier, seen, excluded)
    ||| exists|i: int|
        0 <= i < augs.len() && eligible(#[trigger] augs[i], tier, seen, excluded) && picked2
            == picked.push(augs[i]) && seen2 == seen.insert(augs[i].name)
}

/// A run of draws, one per tier of `tiers` in order, that leads from
/// (`seen0`, `picked0`) to (`seen`, `picked`).
pub open spec fn draws_reach(
    augs: Seq<AugmentView>,
    tiers: Seq<Seq<char>>,
    seen0: Set<Seq<char>>,
    picked0: Seq<AugmentView>,
    seen: Set<Seq<char>>,
    picked: Seq<AugmentView>,
) -> bool
    decreases tiers.len(),
{
    if tiers.len() == 0 {
        seen == seen0 && picked == picked0
    } else {
        exists|s: Set<Seq<char>>, p: Seq<AugmentView>|
            draws_reach(augs, tiers.drop_last(), seen0, picked0, s, p) && #[trigger] draw_step(
                augs,
                tiers.last(),
                s,
                p,
                seen,
                picked,
            )
    }
}

/// Draws one augment of `tier` into the picks; the picked augments are
/// excluded.  Returns the drawn augment.
fn draw_into(
    tier: &str,
    augments: &[Augment],
    seen: &mut NameSet,
    picked: &mut Vec<Augment>,
    rng: &mut ThreadRng,
) -> (r: Option<Augment>)
    ensures
        draw_step(
            aug_views(augments@),
            tier@,
            old(seen)@,
            aug_views(old(picked)@),
            final(seen)@,
            aug_views(final(picked)@),
        ),
        match r {
            Some(a) => aug_views(final(picked)@) == aug_views(old(picked)@).push(a@),
            None => final(picked)@ == old(picked)@,
        },
{
    let ghost av = aug_views(augments@);
    let excluded = picked_names(picked);
    let ghost excl = names_of(aug_views(picked@)).to_set();
    let drawn = pick_random_of_tier(tier, augments, seen, &excluded, rng);
    match drawn {
        Some(a) => {
            let ghost old_picked = aug_views(picked@);
            let ghost i = choose|i: int|
                0 <= i < av.len() && #[trigger] av[i] == a@ && eligible(av[i], tier@, seen@, excl);
            seen.insert(a.name.as_str());
            let copy = a.clone();
            picked.push(a);
            assert(aug_views(picked@) =~= old_picked.push(av[i]));
            Some(copy)
        },
        None => None,
    }
}

/// A run of draws extended by one more draw.
pub proof fn lemma_reach_push(
    augs: Seq<AugmentView>,
    tiers: Seq<Seq<char>>,
    t: Seq<char>,
    seen0: Set<Seq<char>>,
    picked0: Seq<AugmentView>,
    seen: Set<Seq<char>>,
    picked: Seq<AugmentView>,
    seen2: Set<Seq<char>>,
    picked2: Seq<AugmentView>,
)
    requires
        draws_reach(augs, tiers, seen0, picked0, seen, picked),
        draw_step(augs, t, seen, picked, seen2, picked2),
    ensures
        draws_reach(augs, tiers.push(t), seen0, picked0, seen2, picked2),
{
    assert(tiers.push(t).drop_last() =~= tiers);
    assert(tiers.push(t).last() == t);
}

/// The name of the transition that draws a gold augment.
pub open spec fn gold_transition() -> Seq<char> {
    "전환: 골드"@
}

/// The name of the transition that draws a prism augment.
pub open spec fn prism_transition() -> Seq<char> {
    "전환: 프리즘"@
}

/// The name of the transition that draws two augments of random tiers.
pub open spec fn chaos_transition() -> Seq<char> {
    "전환: 혼돈"@
}

/// The augments whose pick has an effect of its own.
pub open spec fn is_special_name(name: Seq<char>) -> bool {
    name == gold_transition() || name == prism_transition() || name == chaos_transition() || name
        == pandora_name()
}

/// The announcement of the gold drawn by the gold transition.
pub open spec fn gold_message(name: Seq<char>) -> Seq<char> {
    "\n    "@ + CYAN@ + "✦ '전환: 골드' 발동 → 무작위 골드: "@ + BOLD@ + name + RESET@ + RESET@
}

/// The announcement of the prism drawn by the prism transition.
pub open spec fn prism_message(name: Seq<char>) -> Seq<char> {
    "\n    "@ + CYAN@ + "✦ '전환: 프리즘' 발동 → 무작위 프리즘: "@ + BOLD@ + name + RESET@ + RESET@
}

/// The announcement of the chaos transition.
pub open spec fn chaos_header() -> Seq<char> {
    "\n    "@ + CYAN@ + "✦ '전환: 혼돈' 발동 → 무작위 증강 2개 획득"@ + RESET@
}

/// The line for an augment that the chaos transition drew.
pub open spec fn chaos_line(a: AugmentView) -> Seq<char> {
    "        + "@ + tier_color_spec(a.tier) + "["@ + tier_label_spec(a.tier) + "]"@ + RESET@ + " "@
        + BOLD@ + a.name + RESET@
}

/// The announcement of the box, which replaces `n` earlier picks.
pub open spec fn pandora_header(n: nat) -> Seq<char> {
    "\n    "@ + CYAN@ + "✦ '판도라의 상자' 발동 → 기존 "@ + decimal(n) + "개 증강이 무작위 프리즘으로 전환!"@
        + RESET@
}

/// The line for a prism that the box drew.
pub open spec fn pandora_line(a: AugmentView) -> Seq<char> {
    "        ◇ "@ + BOLD@ + a.name + RESET@
}

/// What picking `aug` does when it is special, for every outcome of the
/// draws: the shown names and picks before (`seen0`, `picked0`) and after
/// (`seen`, `picked`), whether it was special, and the lines announced.
///
/// - The gold and prism transitions are picked and shown, then one augment
///   of their tier is drawn.
/// - The chaos transition is picked and shown, then two augments of random
///   tiers are drawn.
/// - The box shows itself and every earlier pick, drops the earlier picks,
///   draws as many prisms as there were, and is picked last.
/// - Any other augment changes nothing.
pub open spec fn special_outcome(
    aug: AugmentView,
    augs: Seq<AugmentView>,
    seen0: Set<Seq<char>>,
    picked0: Seq<AugmentView>,
    seen: Set<Seq<char>>,
    picked: Seq<AugmentView>,
    handled: bool,
    msgs: Seq<Seq<char>>,
) -> bool {
    let s1 = seen0.insert(aug.name);
    let p1 = picked0.push(aug);
    if aug.name == gold_transition() {
        &&& handled
        &&& draws_reach(augs, seq!["gold"@], s1, p1, seen, picked)
        &&& msgs == Seq::new(
            (picked.len() - p1.len()) as nat,
            |k: int| gold_message(picked[p1.len() + k].name),
        )
    } else if aug.name == prism_transition() {
        &&& handled
        &&& draws_reach(augs, seq!["prism"@], s1, p1, seen, picked)
        &&& msgs == Seq::new(
            (picked.len() - p1.len()) as nat,
            |k: int| prism_message(picked[p1.len() + k].name),
        )
    } else if aug.name == chaos_transition() {
        &&& handled
        &&& exists|tiers: Seq<Seq<char>>|
            tiers.len() == 2 && is_tier_name(tiers[0]) && is_tier_name(tiers[1])
                && #[trigger] draws_reach(augs, tiers, s1, p1, seen, picked)
        &&& msgs == seq![chaos_header()] + Seq::new(
            (picked.len() - p1.len()) as nat,
            |k: int| chaos_line(picked[p1.len() + k]),
        )
    } else if aug.name == pandora_name() {
        &&& handled
        &&& picked.len() >= 1
        &&& picked.last() == aug
        &&& draws_reach(
            augs,
            Seq::new(picked0.len(), |k: int| "prism"@),
            s1 + names_of(picked0).to_set(),
            Seq::empty(),
            seen,
            picked.drop_last(),
        )
        &&& msgs == seq![pandora_header(picked0.len())] + Seq::new(
            (picked.len() - 1) as nat,
            |k: int| pandora_line(picked[k]),
        )
    } else {
        &&& !handled
        &&& seen == seen0
        &&& picked == picked0
        &&& msgs.len() == 0
    }
}

/// Picks a transition that draws one augment of `tier`.
fn single_transition(
    aug: &Augment,
    tier: &str,
    gold: bool,
    picked: &mut Vec<Augment>,
    seen: &mut NameSet,
    augments: &[Augment],
    rng: &mut ThreadRng,
) -> (msgs: Vec<String>)
    requires
        gold ==> tier@ == "gold"@,
        !gold ==> tier@ == "prism"@,
    ensures
        ({
            let s1 = old(seen)@.insert(aug@.name);
            let p1 = aug_views(old(picked)@).push(aug@);
            let pk = aug_views(final(picked)@);
            &&& draws_reach(aug_views(augments@), seq![tier@], s1, p1, final(seen)@, pk)
            &&& msgs.deep_view() == Seq::new(
                (pk.len() - p1.len()) as nat,
                |k: int|
                    if gold {
                        gold_message(pk[p1.len() + k].name)
                    } else {
                        prism_message(pk[p1.len() + k].name)
                    },
            )
        }),
{
    let ghost av = aug_views(augments@);
    seen.insert(aug.name.as_str());
    let ghost p0 = aug_views(picked@);
    picked.push(aug.clone());
    let ghost s1 = seen@;
    let ghost p1 = aug_views(picked@);
    assert(p1 =~= p0.push(aug@));
    let mut msgs: Vec<String> = Vec::new();
    let drawn = draw_into(tier, augments, seen, picked, rng);
    proof {
        assert(draws_reach(av, Seq::<Seq<char>>::empty(), s1, p1, s1, p1));
        lemma_reach_push(av, Seq::empty(), tier@, s1, p1, s1, p1, seen@, aug_views(picked@));
        assert(Seq::<Seq<char>>::empty().push(tier@) =~= seq![tier@]);
    }
    match drawn {
        Some(a) => {
            let mut m = to_owned_string("\n    ");
            m.append(CYAN);
            if gold {
                m.append("✦ '전환: 골드' 발동 → 무작위 골드: ");
            } else {
                m.append("✦ '전환: 프리즘' 발동 → 무작위 프리즘: ");
            }
            m.append(BOLD);
            m.append(a.name.as_str());
            m.append(RESET);
            m.append(RESET);
            let ghost mv = m@;
            msgs.push(m);
            assert(aug_views(picked@)[p1.len() as int] == a@);
            assert(msgs.deep_view() =~= seq![mv]);
        },
        None => {
            assert(msgs.deep_view() =~= Seq::<Seq<char>>::empty());
        },
    }
    let ghost pk = aug_views(picked@);
    assert(msgs.deep_view() =~= Seq::new(
        (pk.len() - p1.len()) as nat,
        |k: int|
            if gold {
                gold_message(pk[p1.len() + k].name)
            } else {
                prism_message(pk[p1.len() + k].name)
            },
    ));
    msgs
}

/// Picks the chaos transition: it draws two augments of random tiers.
fn chaos_transition_draws(
    aug: &Augment,
    picked: &mut Vec<Augment>,
    seen: &mut NameSet,
    augments: &[Augment],
    rng: &mut ThreadRng,
) -> (msgs: Vec<String>)
    ensures
        ({
            let s1 = old(seen)@.insert(aug@.name);
            let p1 = aug_views(old(picked)@).push(aug@);
            let pk = aug_views(final(picked)@);
            &&& exists|tiers: Seq<Seq<char>>|
                tiers.len() == 2 && is_tier_name(tiers[0]) && is_tier_name(tiers[1])
                    && #[trigger] draws_reach(aug_views(augments@), tiers, s1, p1, final(seen)@, pk)
            &&& msgs.deep_view() == seq![chaos_header()] + Seq::new(
                (pk.len() - p1.len()) as nat,
                |k: int| chaos_line(pk[p1.len() + k]),
            )
        }),
{
    let ghost av = aug_views(augments@);
    seen.insert(aug.name.as_str());
    let ghost p0 = aug_views(picked@);
    picked.push(aug.clone());
    let ghost s1 = seen@;
    let ghost p1 = aug_views(picked@);
    assert(p1 =~= p0.push(aug@));
    let mut msgs: Vec<String> = Vec::new();
    let mut head = to_owned_string("\n    ");
    head.append(CYAN);
    head.append("✦ '전환: 혼돈' 발동 → 무작위 증강 2개 획득");
    head.append(RESET);
    msgs.push(head);
    let ghost mut tiers: Seq<Seq<char>> = Seq::empty();
    assert(draws_reach(av, tiers, s1, p1, s1, p1));
    let mut round: usize = 0;
    while round < 2
        invariant
            round <= 2,
            av == aug_views(augments@),
            tiers.len() == round,
            forall|k: int| 0 <= k < tiers.len() ==> is_tier_name(#[trigger] tiers[k]),
            draws_reach(av, tiers, s1, p1, seen@, aug_views(picked@)),
            aug_views(picked@).len() >= p1.len(),
            aug_views(picked@).take(p1.len() as int) == p1,
            msgs.deep_view() == seq![chaos_header()] + Seq::new(
                (aug_views(picked@).len() - p1.len()) as nat,
                |k: int| chaos_line(aug_views(picked@)[p1.len() + k]),
            ),
        decreases 2 - round,
    {
        let tier = random_tier(rng);
        let ghost s_before = seen@;
        let ghost p_before = aug_views(picked@);
        let ghost m_before = msgs.deep_view();
        let drawn = draw_into(tier, augments, seen, picked, rng);
        proof {
            lemma_reach_push(av, tiers, tier@, s1, p1, s_before, p_before, seen@, aug_views(picked@));
            tiers = tiers.push(tier@);
        }
        let ghost pk = aug_views(picked@);
        match drawn {
            Some(a) => {
                let mut line = to_owned_string("        + ");
                line.append(tier_color(a.tier.as_str()));
                line.append("[");
                line.append(tier_label(a.tier.as_str()));
                line.append("]");
                line.append(RESET);
                line.append(" ");
                line.append(BOLD);
                line.append(a.name.as_str());
                line.append(RESET);
                let ghost lv = line@;
                msgs.push(line);
                assert(pk =~= p_before.push(a@));
                assert(pk.take(p1.len() as int) =~= p_before.take(p1.len() as int));
                assert(lv == chaos_line(pk[pk.len() - 1]));
                assert(msgs.deep_view() =~= m_before.push(lv));
                assert(msgs.deep_view() =~= seq![chaos_header()] + Seq::new(
                    (pk.len() - p1.len()) as nat,
                    |k: int| chaos_line(pk[p1.len() + k]),
                ));
            },
            None => {
                assert(pk =~= p_before);
            },
        }
        round += 1;
    }
    let ghost pk = aug_views(picked@);
    assert(tiers.len() == 2 && is_tier_name(tiers[0]) && is_tier_name(tiers[1]));
    assert(draws_reach(av, tiers, s1, p1, seen@, pk));
    assert(s1 == old(seen)@.insert(aug@.name));
    assert(p1 == aug_views(old(picked)@).push(aug@));
    assert(msgs.deep_view() == seq![chaos_header()] + Seq::new(
        (pk.len() - p1.len()) as nat,
        |k: int| chaos_line(pk[p1.len() + k]),
    ));
    msgs
}

/// Picks the box: it shows every earlier pick, replaces them with as many
/// random prisms as it can, and is picked last.
fn pandora_draws(
    aug: &Augment,
    picked: &mut Vec<Augment>,
    seen: &mut NameSet,
    augments: &[Augment],
    rng: &mut ThreadRng,
) -> (msgs: Vec<String>)
    ensures
        ({
            let p0 = aug_views(old(picked)@);
            let s2 = old(seen)@.insert(aug@.name) + names_of(p0).to_set();
            let pk = aug_views(final(picked)@);
            &&& pk.len() >= 1
            &&& pk.last() == aug@
            &&& draws_reach(
                aug_views(augments@),
                Seq::new(p0.len(), |k: int| "prism"@),
                s2,
                Seq::empty(),
                final(seen)@,
                pk.drop_last(),
            )
            &&& msgs.deep_view() == seq![pandora_header(p0.len())] + Seq::new(
                (pk.len() - 1) as nat,
                |k: int| pandora_line(pk[k]),
            )
        }),
{
    let ghost av = aug_views(augments@);
    let ghost p0 = aug_views(picked@);
    let ghost s0 = seen@;
    seen.insert(aug.name.as_str());
    let n_prev = picked.len();
    let mut msgs: Vec<String> = Vec::new();
    let mut head = to_owned_string("\n    ");
    head.append(CYAN);
    head.append("✦ '판도라의 상자' 발동 → 기존 ");
    push_decimal(&mut head, n_prev);
    head.append("개 증강이 무작위 프리즘으로 전환!");
    head.append(RESET);
    msgs.push(head);
    let ghost m0 = msgs.deep_view();
    let mut j: usize = 0;
    while j < n_prev
        invariant
            j <= n_prev,
            n_prev == picked@.len(),
            p0 == aug_views(picked@),
            seen@ == s0.insert(aug@.name) + names_of(p0.take(j as int)).to_set(),
        decreases n_prev - j,
    {
        seen.insert(picked[j].name.as_str());
        proof {
            assert(names_of(p0.take(j + 1)) =~= names_of(p0.take(j as int)).push(p0[j as int].name));
            lemma_push_to_set(names_of(p0.take(j as int)), p0[j as int].name);
        }
        assert(seen@ =~= s0.insert(aug@.name) + names_of(p0.take(j + 1)).to_set());
        j += 1;
    }
    assert(p0.take(n_prev as int) =~= p0);
    picked.clear();
    let ghost s2 = seen@;
    let ghost tiers_all = Seq::new(p0.len(), |k: int| "prism"@);
    assert(aug_views(picked@) =~= Seq::<AugmentView>::empty());
    assert(tiers_all.take(0) =~= Seq::<Seq<char>>::empty());
    let mut round: usize = 0;
    while round < n_prev
        invariant
            round <= n_prev,
            n_prev == p0.len(),
            av == aug_views(augments@),
            tiers_all == Seq::new(p0.len(), |k: int| "prism"@),
            draws_reach(av, tiers_all.take(round as int), s2, Seq::empty(), seen@, aug_views(picked@)),
            m0 == seq![pandora_header(p0.len())],
            msgs.deep_view() == m0 + Seq::new(
                aug_views(picked@).len(),
                |k: int| pandora_line(aug_views(picked@)[k]),
            ),
        decreases n_prev - round,
    {
        let ghost s_before = seen@;
        let ghost p_before = aug_views(picked@);
        let ghost m_before = msgs.deep_view();
        let drawn = draw_into("prism", augments, seen, picked, rng);
        proof {
            lemma_reach_push(
                av,
                tiers_all.take(round as int),
                "prism"@,
                s2,
                Seq::empty(),
                s_before,
                p_before,
                seen@,
                aug_views(picked@),
            );
            assert(tiers_all.take(round as int).push("prism"@) =~= tiers_all.take(round + 1));
        }
        let ghost pk = aug_views(picked@);
        match drawn {
            Some(a) => {
                let mut line = to_owned_string("        ◇ ");
                line.append(BOLD);
                line.append(a.name.as_str());
                line.append(RESET);
                let ghost lv = line@;
                msgs.push(line);
                assert(pk =~= p_before.push(a@));
                assert(msgs.deep_view() =~= m_before.push(lv));
                assert(msgs.deep_view() =~= m0 + Seq::new(pk.len(), |k: int| pandora_line(pk[k])));
            },
            None => {
                assert(pk =~= p_before);
            },
        }
        round += 1;
    }
    assert(tiers_all.take(n_prev as int) =~= tiers_all);
    let ghost drawn_all = aug_views(picked@);
    picked.push(aug.clone());
    let ghost pk = aug_views(picked@);
    assert(pk =~= drawn_all.push(aug@));
    assert(pk.drop_last() =~= drawn_all);
    assert(msgs.deep_view() =~= seq![pandora_header(p0.len())] + Seq::new(
        (pk.len() - 1) as nat,
        |k: int| pandora_line(pk[k]),
    ));
    msgs
}

/// Applies the effect of a special augment that was just chosen.  Returns
/// whether `aug` was special (then it has already joined the picks) and the
/// lines that announce what happened.
pub fn handle_special(
    aug: &Augment,
    picked: &mut Vec<Augment>,
    seen: &mut NameSet,
    augments: &[Augment],
    rng: &mut ThreadRng,
) -> (r: (bool, Vec<String>))
    ensures
        special_outcome(
            aug@,
            aug_views(augments@),
            old(seen)@,
            aug_views(old(picked)@),
            final(seen)@,
            aug_views(final(picked)@),
            r.0,
            r.1.deep_view(),
        ),
        r.0 == is_special_name(aug@.name),
        !r.0 ==> *final(rng) == *old(rng),
{
    let name = aug.name.as_str();
    let ghost p1 = aug_views(picked@).push(aug@);
    if str_eq(name, "전환: 골드") {
        let msgs = single_transition(aug, "gold", true, picked, seen, augments, rng);
        let ghost pk = aug_views(picked@);
        assert(msgs.deep_view() =~= Seq::new(
            (pk.len() - p1.len()) as nat,
            |k: int| gold_message(pk[p1.len() + k].name),
        ));
        (true, msgs)
    } else if str_eq(name, "전환: 프리즘") {
        let msgs = single_transition(aug, "prism", false, picked, seen, augments, rng);
        let ghost pk = aug_views(picked@);
        assert(msgs.deep_view() =~= Seq::new(
            (pk.len() - p1.len()) as nat,
            |k: int| prism_message(pk[p1.len() + k].name),
        ));
        (true, msgs)
    } else if str_eq(name, "전환: 혼돈") {
        let msgs = chaos_transition_draws(aug, picked, seen, augments, rng);
        (true, msgs)
    } else if str_eq(name, "판도라의 상자") {
        let msgs = pandora_draws(aug, picked, seen, augments, rng);
        (true, msgs)
    } else {
        let msgs: Vec<String> = Vec::new();
        assert(msgs.deep_view() =~= Seq::<Seq<char>>::empty());
        (false, msgs)
    }
}

} // verus!
