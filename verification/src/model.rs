//! The game's data: champions, augments and synergies.

use vstd::prelude::*;

verus! {

/// A champion that the player is given.
pub struct Champion {
    pub name: String,
    pub title: String,
}

/// An augment card.  `tier` is one of "silver", "gold" or "prism".
pub struct Augment {
    pub tier: String,
    pub name: String,
    pub description: String,
    pub image: String,
    pub exclusive: bool,
}

/// What an augment holds, as plain text.
pub struct AugmentView {
    pub tier: Seq<char>,
    pub name: Seq<char>,
    pub description: Seq<char>,
    pub image: Seq<char>,
    pub exclusive: bool,
}

impl View for Augment {
    type V = AugmentView;

    open spec fn view(&self) -> AugmentView {
        AugmentView {
            tier: self.tier@,
            name: self.name@,
            description: self.description@,
            image: self.image@,
            exclusive: self.exclusive,
        }
    }
}

impl DeepView for Augment {
    type V = AugmentView;

    open spec fn deep_view(&self) -> AugmentView {
        self@
    }
}

impl Clone for Augment {
    fn clone(&self) -> (r: Self)
        ensures
            r@ == self@,
    {
        Augment {
            tier: self.tier.clone(),
            name: self.name.clone(),
            description: self.description.clone(),
            image: self.image.clone(),
            exclusive: self.exclusive,
        }
    }
}

/// A stage of a synergy: active once `threshold` of its augments are held.
pub struct Stage {
    pub threshold: usize,
    pub effect: String,
}

/// What a stage holds, as plain values.
pub struct StageView {
    pub threshold: usize,
    pub effect: Seq<char>,
}

impl View for Stage {
    type V = StageView;

    open spec fn view(&self) -> StageView {
        StageView { threshold: self.threshold, effect: self.effect@ }
    }
}

impl DeepView for Stage {
    type V = StageView;

    open spec fn deep_view(&self) -> StageView {
        self@
    }
}

/// A synergy: a set of augments, by name, and the stages it reaches as more
/// of them are held (in increasing order of threshold).
pub struct Synergy {
    pub name: String,
    pub base: String,
    pub augments: Vec<String>,
    pub stages: Vec<Stage>,
}

/// What a synergy holds, as plain values.
pub struct SynergyView {
    pub name: Seq<char>,
    pub base: Seq<char>,
    pub augments: Seq<Seq<char>>,
    pub stages: Seq<StageView>,
}

impl View for Synergy {
    type V = SynergyView;

    open spec fn view(&self) -> SynergyView {
        SynergyView {
            name: self.name@,
            base: self.base@,
            augments: self.augments.deep_view(),
            stages: self.stages.deep_view(),
        }
    }
}

impl DeepView for Synergy {
    type V = SynergyView;

    open spec fn deep_view(&self) -> SynergyView {
        self@
    }
}

/// The names of a sequence of augments.
pub open spec fn names_of(augs: Seq<AugmentView>) -> Seq<Seq<char>> {
    augs.map_values(|a: AugmentView| a.name)
}

} // verus!
