//! How a visible prompt consumes keys.
use vstd::prelude::*;

verus! {

/// The kind of prompt that currently owns the keyboard, if any.
#[derive(Clone, Copy, Debug, Default, PartialEq, Eq, Structural)]
pub enum PromptInteraction {
    #[default]
    Inactive,
    Input,
    Acknowledgement,
    Confirmation,
}

impl PromptInteraction {
    pub open spec fn spec_active(self) -> bool {
        !(self is Inactive)
    }

    pub open spec fn spec_accepts_enter(self) -> bool {
        self is Acknowledgement || self is Confirmation
    }

    pub open spec fn spec_yes_no(self) -> bool {
        self is Confirmation
    }

    pub fn is_active(self) -> (r: bool)
        ensures
            r == self.spec_active(),
    {
        !matches!(self, PromptInteraction::Inactive)
    }

    pub fn accepts_enter(self) -> (r: bool)
        ensures
            r == self.spec_accepts_enter(),
    {
        matches!(self, PromptInteraction::Acknowledgement | PromptInteraction::Confirmation)
    }

    pub fn uses_yes_no(self) -> (r: bool)
        ensures
            r == self.spec_yes_no(),
    {
        matches!(self, PromptInteraction::Confirmation)
    }
}

} // verus!
