//! Which synergies an augment belongs to, and how far the picked augments
//! advance each synergy.

use vstd::prelude::*;
use crate::model::{Augment, AugmentView, Stage, StageView, Synergy, SynergyView, names_of};
use crate::text::{push_char, starts_with, str_eq};

verus! {

/// `s` begins with `p`.
pub open spec fn has_prefix(s: Seq<char>, p: Seq<char>) -> bool {
    p.len() <= s.len() && s.take(p.len() as int) == p
}

/// An augment whose name marks it as a transition ("전환:" or "전환 :").
pub open spec fn is_transition_spec(name: Seq<char>) -> bool {
    has_prefix(name, "전환:"@) || has_prefix(name, "전환 :"@)
}

/// Whether the augment named `name` is a transition augment.
pub fn is_transition_augment(name: &str) -> (r: bool)
    ensures
        r == is_transition_spec(name@),
{
    starts_with(name, "전환:") || starts_with(name, "전환 :")
}

/// Whether `list` holds `name`.
pub fn contains_name(list: &Vec<String>, name: &str) -> (r: bool)
    ensures
        r == list.deep_view().contains(name@),
{
    let mut i: usize = 0;
    while i < list.len()
        invariant
            i <= list@.len(),
            forall|j: int| 0 <= j < i ==> list.deep_view()[j] != name@,
        decreases list.len() - i,
    {
        if str_eq(list[i].as_str(), name) {
            assert(list.deep_view()[i as int] == name@);
            return true;
        }
        i += 1;
    }
    assert forall|j: int| 0 <= j < list.deep_view().len() implies list.deep_view()[j] != name@ by {}
    false
}

/// Names of the synergies, in order, whose augment list holds `aug_name`.
pub open spec fn synergies_for_spec(syns: Seq<SynergyView>, aug_name: Seq<char>) -> Seq<Seq<char>>
    decreases syns.len(),
{
    if syns.len() == 0 {
        Seq::empty()
    } else {
        let rest = synergies_for_spec(syns.drop_last(), aug_name);
        if syns.last().augments.contains(aug_name) {
            rest.push(syns.last().name)
        } else {
            rest
        }
    }
}

/// The views of a slice of synergies.
pub open spec fn syn_views(syns: Seq<Synergy>) -> Seq<SynergyView> {
    syns.map_values(|s: Synergy| s@)
}

/// The views of a slice of augments.
pub open spec fn aug_views(augs: Seq<Augment>) -> Seq<AugmentView> {
    augs.map_values(|a: Augment| a@)
}

/// Names of the synergies, in order, that the augment named `aug_name`
/// belongs to.
pub fn synergies_for_augment<'a>(synergies: &'a [Synergy], aug_name: &str) -> (r: Vec<&'a str>)
    ensures
        r@.map_values(|x: &str| x@) == synergies_for_spec(syn_views(synergies@), aug_name@),
{
    let mut r: Vec<&'a str> = Vec::new();
    let mut i: usize = 0;
    while i < synergies.len()
        invariant
            i <= synergies@.len(),
            r@.map_values(|x: &str| x@) == synergies_for_spec(
                syn_views(synergies@.take(i as int)),
                aug_name@,
            ),
        decreases synergies.len() - i,
    {
        let s = &synergies[i];
        assert(syn_views(synergies@.take(i + 1)).drop_last() =~= syn_views(synergies@.take(i as int)));
        assert(syn_views(synergies@.take(i + 1)).last() == s@);
        if contains_name(&s.augments, aug_name) {
            let ghost before = r@.map_values(|x: &str| x@);
            r.push(s.name.as_str());
            assert(r@.map_values(|x: &str| x@) =~= before.push(s.name@));
        }
        i += 1;
    }
    assert(synergies@.take(i as int) =~= synergies@);
    r
}

/// How many of `picked` are augments of a synergy whose list is `augs`.
pub open spec fn count_held(augs: Seq<Seq<char>>, picked: Seq<Seq<char>>) -> nat
    decreases picked.len(),
{
    if picked.len() == 0 {
        0
    } else {
        count_held(augs, picked.drop_last()) + if augs.contains(picked.last()) {
            1nat
        } else {
            0nat
        }
    }
}

/// Each synergy that at least one picked augment belongs to, by position,
/// with how many picked augments belong to it, in the synergies' order.
pub open spec fn progress_spec(syns: Seq<SynergyView>, picked: Seq<Seq<char>>) -> Seq<(int, nat)>
    decreases syns.len(),
{
    if syns.len() == 0 {
        Seq::empty()
    } else {
        let rest = progress_spec(syns.drop_last(), picked);
        let c = count_held(syns.last().augments, picked);
        if c > 0 {
            rest.push(((syns.len() - 1) as int, c))
        } else {
            rest
        }
    }
}

/// The number of count_held never exceeds the number of picked augments.
pub proof fn lemma_count_held_bound(augs: Seq<Seq<char>>, picked: Seq<Seq<char>>)
    ensures
        count_held(augs, picked) <= picked.len(),
    decreases picked.len(),
{
    if picked.len() > 0 {
        lemma_count_held_bound(augs, picked.drop_last());
    }
}

/// How many of the picked augments belong to the synergy whose augment list
/// is `augs`.
pub fn count_picked_in(augs: &Vec<String>, picked: &[Augment]) -> (c: usize)
    ensures
        c == count_held(augs.deep_view(), names_of(aug_views(picked@))),
{
    let mut c: usize = 0;
    let mut i: usize = 0;
    while i < picked.len()
        invariant
            i <= picked@.len(),
            c == count_held(augs.deep_view(), names_of(aug_views(picked@.take(i as int)))),
            c <= i,
        decreases picked.len() - i,
    {
        assert(names_of(aug_views(picked@.take(i + 1))).drop_last() =~= names_of(
            aug_views(picked@.take(i as int)),
        ));
        assert(names_of(aug_views(picked@.take(i + 1))).last() == picked@[i as int].name@);
        if contains_name(augs, picked[i].name.as_str()) {
            c += 1;
        }
        i += 1;
    }
    assert(picked@.take(i as int) =~= picked@);
    c
}

/// Each synergy that the picked augments advance, with how many of them
/// belong to it, in the synergies' order.
pub fn synergy_progress<'a>(synergies: &'a [Synergy], picked: &[Augment]) -> (r: Vec<(&'a Synergy, usize)>)
    ensures
        ({
            let p = progress_spec(syn_views(synergies@), names_of(aug_views(picked@)));
            &&& r@.len() == p.len()
            &&& forall|k: int|
                0 <= k < p.len() ==> {
                    &&& 0 <= p[k].0 < synergies@.len()
                    &&& *r@[k].0 == synergies@[p[k].0]
                    &&& r@[k].1 == p[k].1
                }
        }),
{
    let ghost names = names_of(aug_views(picked@));
    let mut r: Vec<(&'a Synergy, usize)> = Vec::new();
    let mut i: usize = 0;
    while i < synergies.len()
        invariant
            i <= synergies@.len(),
            names == names_of(aug_views(picked@)),
            ({
                let p = progress_spec(syn_views(synergies@.take(i as int)), names);
                &&& r@.len() == p.len()
                &&& forall|k: int|
                    0 <= k < p.len() ==> {
                        &&& 0 <= p[k].0 < i
                        &&& *r@[k].0 == synergies@[p[k].0]
                        &&& r@[k].1 == p[k].1
                    }
            }),
        decreases synergies.len() - i,
    {
        let s = &synergies[i];
        let ghost prev = syn_views(synergies@.take(i as int));
        assert(syn_views(synergies@.take(i + 1)).drop_last() =~= prev);
        assert(syn_views(synergies@.take(i + 1)).last() == s@);
        assert(syn_views(synergies@.take(i + 1)).len() == i + 1);
        let count = count_picked_in(&s.augments, picked);
        if count > 0 {
            r.push((s, count));
        }
        i += 1;
    }
    assert(synergies@.take(i as int) =~= synergies@);
    r
}

/// Position of the last stage whose threshold is at most `count`.
pub open spec fn current_stage_spec(stages: Seq<StageView>, count: nat) -> Option<int>
    decreases stages.len(),
{
    if stages.len() == 0 {
        None
    } else if stages.last().threshold <= count {
        Some((stages.len() - 1) as int)
    } else {
        current_stage_spec(stages.drop_last(), count)
    }
}

/// The highest stage of `syn` that `count` held augments reach: the last
/// stage whose threshold is at most `count`.
pub fn current_stage(syn: &Synergy, count: usize) -> (r: Option<&Stage>)
    ensures
        match current_stage_spec(syn@.stages, count as nat) {
            None => r.is_none(),
            Some(i) => r.is_some() && 0 <= i < syn.stages@.len() && *r.unwrap() == syn.stages@[i],
        },
{
    let n = syn.stages.len();
    let mut i: usize = n;
    assert(syn@.stages.take(n as int) =~= syn@.stages);
    while i > 0
        invariant
            i <= n,
            n == syn.stages@.len(),
            current_stage_spec(syn@.stages, count as nat) == current_stage_spec(
                syn@.stages.take(i as int),
                count as nat,
            ),
        decreases i,
    {
        let ghost pre = syn@.stages.take(i as int);
        assert(pre.last() == syn.stages@[i - 1]@);
        assert(pre.drop_last() =~= syn@.stages.take(i - 1));
        if syn.stages[i - 1].threshold <= count {
            return Some(&syn.stages[i - 1]);
        }
        i -= 1;
    }
    None
}

/// The threshold of a synergy's last stage, 0 when it has none.
pub open spec fn max_threshold(stages: Seq<StageView>) -> nat {
    if stages.len() == 0 {
        0
    } else {
        stages.last().threshold as nat
    }
}

/// The threshold of a synergy's last stage, 0 when it has none.
pub fn last_threshold(syn: &Synergy) -> (t: usize)
    ensures
        t == max_threshold(syn@.stages),
{
    let n = syn.stages.len();
    if n == 0 {
        0
    } else {
        syn.stages[n - 1].threshold
    }
}

/// A bar of as many cells as the last threshold, the first `count` of them full.
pub open spec fn synergy_bar_spec(stages: Seq<StageView>, count: nat) -> Seq<char> {
    Seq::new(max_threshold(stages), |j: int| if j < count { '█' } else { '░' })
}

/// A progress bar for a synergy: one cell per augment needed for its last
/// stage, full for each of the `count` held.
pub fn synergy_bar(s: &Synergy, count: usize) -> (bar: String)
    ensures
        bar@ == synergy_bar_spec(s@.stages, count as nat),
{
    let max = last_threshold(s);
    let mut bar = String::new();
    let mut i: usize = 0;
    while i < max
        invariant
            i <= max,
            max == max_threshold(s@.stages),
            bar@ =~= Seq::new(i as nat, |j: int| if j < count { '█' } else { '░' }),
        decreases max - i,
    {
        if i < count {
            push_char(&mut bar, '█');
        } else {
            push_char(&mut bar, '░');
        }
        i += 1;
    }
    bar
}

} // verus!
