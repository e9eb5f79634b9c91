//! Animation timeline and slide-transition data.

use vstd::prelude::*;
use crate::world::Entity;

verus! {

/// What starts an animation step.
#[derive(Clone, Copy, Debug, PartialEq, Eq, Structural)]
pub enum Trigger {
    OnClick,
    WithPrev,
    /// After the previous step, following `delay` milliseconds.
    AfterPrev { delay: u32 },
}

#[derive(Clone, Copy, Debug, PartialEq, Eq, Structural)]
pub enum Easing {
    Linear,
    EaseIn,
    EaseOut,
    EaseInOut,
}

#[derive(Clone, Copy, Debug, PartialEq, Eq, Structural)]
pub enum Effect {
    Fade,
    Fly,
    Wipe,
    Zoom,
}

#[derive(Clone, Copy, Debug, PartialEq, Eq, Structural)]
pub enum AnimKind {
    Entrance(Effect),
    Emphasis(Effect),
    Exit(Effect),
}

/// One animation of one target entity; durations and delays in milliseconds.
#[derive(Clone, Copy, Debug, PartialEq, Eq, Structural)]
pub struct Anim {
    pub target: Entity,
    pub kind: AnimKind,
    pub duration: u32,
    pub delay: u32,
    pub easing: Easing,
}

/// A step of a timeline; its animations play in parallel.
#[derive(Clone, Debug, PartialEq, Eq)]
pub struct AnimStep {
    pub trigger: Trigger,
    pub anims: Vec<Anim>,
}

/// Per-slide animation timeline.
#[derive(Clone, Debug, Default, PartialEq, Eq)]
pub struct SlideTimeline {
    pub steps: Vec<AnimStep>,
}

#[derive(Clone, Copy, Debug, PartialEq, Eq, Structural)]
pub enum TransitionKind {
    /// No transition effect.
    NoEffect,
    Fade,
    Push,
    Wipe,
}

/// Screen transition of a slide; duration in milliseconds.
#[derive(Clone, Copy, Debug, PartialEq, Eq, Structural)]
pub struct Transition {
    pub kind: TransitionKind,
    pub duration: u32,
}

pub struct AnimStepView {
    pub trigger: Trigger,
    pub anims: Seq<Anim>,
}

impl View for AnimStep {
    type V = AnimStepView;

    open spec fn view(&self) -> AnimStepView {
        AnimStepView { trigger: self.trigger, anims: self.anims@ }
    }
}

impl View for SlideTimeline {
    type V = Seq<AnimStepView>;

    open spec fn view(&self) -> Seq<AnimStepView> {
        self.steps@.map_values(|s: AnimStep| s@)
    }
}

impl AnimStep {
    /// A copy of this step.
    pub fn duplicate(&self) -> (r: AnimStep)
        ensures
            r@ == self@,
    {
        let anims = self.anims.clone();
        assert(anims@ =~= self.anims@);
        AnimStep { trigger: self.trigger, anims }
    }
}

impl SlideTimeline {
    /// A copy of this timeline.
    pub fn duplicate(&self) -> (r: SlideTimeline)
        ensures
            r@ == self@,
    {
        let mut steps: Vec<AnimStep> = Vec::new();
        let mut i: usize = 0;
        while i < self.steps.len()
            invariant
                i <= self.steps@.len(),
                steps@.len() == i,
                forall|j: int| 0 <= j < i ==> #[trigger] steps@[j]@ == self.steps@[j]@,
            decreases self.steps@.len() - i,
        {
            steps.push(self.steps[i].duplicate());
            i = i + 1;
        }
        let r = SlideTimeline { steps };
        assert(r@ =~= self@);
        r
    }
}

} // verus!
