use vstd::prelude::*;

verus! {

/// A weapon to be used by someone.
#[derive(Clone, Copy, Debug, PartialEq, Eq)]
pub enum Weapon {
    /// Fists it is.
    Fists(Fists),
    /// What is brown and sticky?
    Stick(Stick),
}

/// Fists. Not very effective.
#[derive(Clone, Copy, Debug, PartialEq, Eq)]
pub struct Fists {
    /// The amount of damage dealt on a successful hit, in health points.
    pub damage: u32,
}

/// A simple stick. Not very effective.
#[derive(Clone, Copy, Debug, PartialEq, Eq)]
pub struct Stick {
    /// The amount of damage dealt on a successful hit, in health points.
    pub damage: u32,
}

impl Weapon {
    /// The damage that one hit with the weapon deals.
    pub open spec fn spec_damage(self) -> u32 {
        match self {
            Weapon::Fists(fists) => fists.damage,
            Weapon::Stick(stick) => stick.damage,
        }
    }

    /// Gets the damage of the weapon.
    pub fn damage(&self) -> (damage: u32)
        ensures
            damage == self.spec_damage(),
    {
        match self {
            Weapon::Stick(w) => w.damage,
            Weapon::Fists(w) => w.damage,
        }
    }
}

} // verus!
