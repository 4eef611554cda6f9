use crate::party::Participant;
use crate::weapon::Weapon;
use vstd::prelude::*;

verus! {

/// A move as it is applied to a state of the conflict.
#[derive(Clone, Copy, Debug, PartialEq, Eq)]
pub enum AppliedAction {
    /// The acting party retreats from the encounter.
    Flee,
    /// A party member targets another party member.
    Targeted(TargetedAction),
}

/// An applied action.
#[derive(Clone, Copy, Debug, PartialEq, Eq)]
pub struct TargetedAction {
    /// The action.
    pub action: Action,
    /// The source of the action.
    pub source: Participant,
    /// The target of the action.
    pub target: Participant,
}

/// An action to be taken.
#[derive(Clone, Copy, Debug, PartialEq, Eq)]
pub enum Action {
    /// Performs a simple attack.
    SimpleAttack(SimpleAttackAction),
}

/// A simple attack.
#[derive(Clone, Copy, Debug, PartialEq, Eq)]
pub struct SimpleAttackAction {
    /// The weapon used for the attack.
    pub weapon: Option<Weapon>,
    /// The damage inflicted on the selected target, in health points.
    pub damage: u32,
}

impl Action {
    /// The damage that the action inflicts on its target.
    pub open spec fn damage(self) -> u32 {
        match self {
            Action::SimpleAttack(attack) => attack.damage,
        }
    }
}

} // verus!
