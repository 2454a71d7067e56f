use vstd::prelude::*;

use crate::protocol::AnimationState;

verus! {

/// How the local character is moving.
#[derive(Debug, Clone, Copy, PartialEq, Eq, Structural)]
pub enum CharacterState {
    Idle,
    Walking,
    Running,
}

impl Default for CharacterState {
    fn default() -> (r: CharacterState)
        ensures
            r == CharacterState::Idle,
    {
        CharacterState::Idle
    }
}

impl CharacterState {
    /// The animation other players see for this movement.
    pub fn animation(&self) -> (r: AnimationState)
        ensures
            r == match *self {
                CharacterState::Idle => AnimationState::Idle,
                CharacterState::Walking => AnimationState::Walking,
                CharacterState::Running => AnimationState::Running,
            },
    {
        match self {
            CharacterState::Idle => AnimationState::Idle,
            CharacterState::Walking => AnimationState::Walking,
            CharacterState::Running => AnimationState::Running,
        }
    }
}

} // verus!
