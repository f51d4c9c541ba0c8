//! The stages of the first-start walkthrough.

use vstd::prelude::*;

verus! {

/// A page of the walkthrough shown when the application first starts.
#[derive(Clone, Copy, PartialEq, Eq, Structural, Debug)]
pub enum InitialSetupStage {
    Finished,
    Keyboard,
    Community,
    Credits,
    Introduction,
}

/// The page after `s`: introduction, keyboard, community, credits, then done.
pub open spec fn next_stage(s: InitialSetupStage) -> Option<InitialSetupStage> {
    match s {
        InitialSetupStage::Introduction => Some(InitialSetupStage::Keyboard),
        InitialSetupStage::Keyboard => Some(InitialSetupStage::Community),
        InitialSetupStage::Community => Some(InitialSetupStage::Credits),
        InitialSetupStage::Credits => Some(InitialSetupStage::Finished),
        InitialSetupStage::Finished => None,
    }
}

/// The page before `s`.
pub open spec fn previous_stage(s: InitialSetupStage) -> Option<InitialSetupStage> {
    match s {
        InitialSetupStage::Introduction => None,
        InitialSetupStage::Keyboard => Some(InitialSetupStage::Introduction),
        InitialSetupStage::Community => Some(InitialSetupStage::Keyboard),
        InitialSetupStage::Credits => Some(InitialSetupStage::Community),
        InitialSetupStage::Finished => Some(InitialSetupStage::Credits),
    }
}

impl Default for InitialSetupStage {
    /// The walkthrough starts with the introduction.
    fn default() -> (r: Self)
        ensures
            r == InitialSetupStage::Introduction,
    {
        InitialSetupStage::Introduction
    }
}

impl InitialSetupStage {
    /// The page after this one, or `None` once the walkthrough is finished.
    pub fn next(&self) -> (r: Option<InitialSetupStage>)
        ensures
            r == next_stage(*self),
    {
        match *self {
            InitialSetupStage::Introduction => Some(InitialSetupStage::Keyboard),
            InitialSetupStage::Keyboard => Some(InitialSetupStage::Community),
            InitialSetupStage::Community => Some(InitialSetupStage::Credits),
            InitialSetupStage::Credits => Some(InitialSetupStage::Finished),
            InitialSetupStage::Finished => None,
        }
    }

    /// The page before this one, or `None` on the introduction.
    pub fn previous(&self) -> (r: Option<InitialSetupStage>)
        ensures
            r == previous_stage(*self),
    {
        match *self {
            InitialSetupStage::Introduction => None,
            InitialSetupStage::Keyboard => Some(InitialSetupStage::Introduction),
            InitialSetupStage::Community => Some(InitialSetupStage::Keyboard),
            InitialSetupStage::Credits => Some(InitialSetupStage::Community),
            InitialSetupStage::Finished => Some(InitialSetupStage::Credits),
        }
    }

    /// Whether moving on from this page ends the walkthrough.
    pub fn will_next_finish(&self) -> (r: bool)
        ensures
            r == (next_stage(*self) == Some(InitialSetupStage::Finished)),
    {
        self.next() == Some(InitialSetupStage::Finished)
    }
}

/// Going forward then back, or back then forward, returns to the same page.
pub proof fn lemma_next_previous_inverse(s: InitialSetupStage, t: InitialSetupStage)
    ensures
        next_stage(s) == Some(t) <==> previous_stage(t) == Some(s),
{
}

/// From the introduction, four steps forward finish the walkthrough, and
/// only the credits page leads to the end.
pub proof fn lemma_walkthrough_order(s: InitialSetupStage)
    ensures
        next_stage(InitialSetupStage::Introduction) == Some(InitialSetupStage::Keyboard),
        next_stage(InitialSetupStage::Keyboard) == Some(InitialSetupStage::Community),
        next_stage(InitialSetupStage::Community) == Some(InitialSetupStage::Credits),
        next_stage(InitialSetupStage::Credits) == Some(InitialSetupStage::Finished),
        next_stage(s) is None <==> s == InitialSetupStage::Finished,
        previous_stage(s) is None <==> s == InitialSetupStage::Introduction,
        (next_stage(s) == Some(InitialSetupStage::Finished)) <==> s == InitialSetupStage::Credits,
{
}

} // verus!
