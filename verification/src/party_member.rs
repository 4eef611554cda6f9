use crate::action::{Action, SimpleAttackAction};
use crate::weapon::Weapon;
use vstd::prelude::*;

verus! {

/// A party member.
#[derive(Clone, Copy, Debug, PartialEq, Eq)]
pub struct PartyMember {
    /// The ID of the party member. Must be increasing and unique within the party.
    pub id: usize,
    /// The amount of health, in health points. If health reaches zero, the member is dead.
    pub health: u32,
    /// The total amount of damage taken over the course of a conflict, in health points.
    pub damage_taken: u64,
    /// The weapon of choice.
    pub weapon: Weapon,
    /// Whether the member still takes part in the encounter. Cleared when
    /// the member dies or the party retreats.
    pub can_act: bool,
}

impl PartyMember {
    /// The damage counter has room for every hit that the member can still
    /// take: a hit that takes hold costs at least one health point unless
    /// it deals no damage, and adds at most `u32::MAX` to the counter.
    pub open spec fn wf(self) -> bool {
        self.damage_taken + self.health * u32::MAX <= u64::MAX
    }

    /// A member without health is dead.
    pub open spec fn dead(self) -> bool {
        self.health == 0
    }

    /// A member acts while it takes part in the encounter and is alive.
    pub open spec fn eligible(self) -> bool {
        self.can_act && !self.dead()
    }

    /// The member after a hit of the given damage: health drops to zero at
    /// most, the damage counter grows by the whole hit, and a member that
    /// dies takes no further part. A dead member stays as it is.
    pub open spec fn hit(self, damage: u32) -> PartyMember {
        if self.dead() {
            self
        } else {
            PartyMember {
                id: self.id,
                health: if self.health > damage {
                    (self.health - damage) as u32
                } else {
                    0
                },
                damage_taken: (self.damage_taken + damage) as u64,
                weapon: self.weapon,
                can_act: self.can_act && self.health > damage,
            }
        }
    }

    /// The member after its party has retreated.
    pub open spec fn withdrawn(self) -> PartyMember {
        PartyMember { can_act: false, ..self }
    }

    /// A hit keeps a valid member valid.
    pub proof fn lemma_hit_keeps_wf(self, damage: u32)
        requires
            self.wf(),
        ensures
            self.hit(damage).wf(),
            self.hit(damage).id == self.id,
            !self.dead() ==> self.damage_taken + damage <= u64::MAX,
    {
        if !self.dead() {
            let after = self.hit(damage);
            if damage == 0 {
            } else {
                assert(after.health <= self.health - 1);
                assert(after.health * u32::MAX <= (self.health - 1) * u32::MAX) by (nonlinear_arith)
                    requires
                        after.health <= self.health - 1,
                ;
                assert((self.health - 1) * u32::MAX == self.health * u32::MAX - u32::MAX)
                    by (nonlinear_arith);
            }
            assert(self.health * u32::MAX >= u32::MAX) by (nonlinear_arith)
                requires
                    self.health >= 1,
            ;
        }
    }

    /// Returns `true` if the party member is dead.
    pub fn is_dead(&self) -> (dead: bool)
        ensures
            dead == self.dead(),
    {
        self.health == 0
    }

    /// Handles an action.
    ///
    /// ## Returns
    /// `true` if the action could be applied; `false` otherwise.
    pub fn handle_action(&mut self, action: &Action) -> (applied: bool)
        requires
            old(self).wf(),
        ensures
            applied == !old(self).dead(),
            *final(self) == old(self).hit(action.damage()),
            final(self).wf(),
    {
        match action {
            Action::SimpleAttack(attack) => self.handle_simple_attack(attack),
        }
    }

    /// Handles a simple attack.
    ///
    /// ## Returns
    /// `true` if the action could be applied; `false` otherwise. An attack will not be applied
    /// if the member is already dead.
    fn handle_simple_attack(&mut self, attack: &SimpleAttackAction) -> (applied: bool)
        requires
            old(self).wf(),
        ensures
            applied == !old(self).dead(),
            *final(self) == old(self).hit(attack.damage),
            final(self).wf(),
    {
        proof {
            self.lemma_hit_keeps_wf(attack.damage);
        }
        if self.is_dead() {
            return false;
        }
        // We ensure that the health is never negative.
        if self.health > attack.damage {
            self.health = self.health - attack.damage;
        } else {
            self.health = 0;
            self.can_act = false;
        }

        // We just sum up the damage taken regardless of whether
        // it would actually "fit" the health, i.e. a 100 damage on 10
        // health would still be counted 100 instead of 10.
        self.damage_taken = self.damage_taken + attack.damage as u64;

        true
    }

    /// Returns an iterator listing all possible actions the party
    /// member can take.
    pub fn actions(self) -> (iter: AttackIterator)
        ensures
            iter.member() == self,
            iter.remaining() == seq![self.attack()],
    {
        AttackIterator::new(self)
    }

    /// The one action that the member can take: an attack with its weapon.
    pub open spec fn attack(self) -> Action {
        Action::SimpleAttack(
            SimpleAttackAction { weapon: Some(self.weapon), damage: self.weapon.spec_damage() },
        )
    }

    /// Determines whether the current member can act.
    pub fn can_act(&self) -> (able: bool)
        ensures
            able == self.eligible(),
    {
        self.can_act && !self.is_dead()
    }

    /// Determines whether the action is applicable to this member.
    pub fn is_applicable(&self, _action: &Action) -> (applicable: bool)
        ensures
            applicable == !self.dead(),
    {
        !self.is_dead()
    }
}

/// An iterator for attack actions, i.e. actions targeting a single opponent.
#[derive(Clone, Copy, Debug)]
pub struct AttackIterator {
    member: PartyMember,
    index: usize,
}

impl AttackIterator {
    /// The member whose actions are listed.
    pub closed spec fn member(self) -> PartyMember {
        self.member
    }

    /// The actions that are still to come, in order.
    pub closed spec fn remaining(self) -> Seq<Action> {
        if self.index == 0 {
            seq![self.member.attack()]
        } else {
            Seq::empty()
        }
    }

    /// Creates a new iterator for the party member.
    fn new(member: PartyMember) -> (iter: Self)
        ensures
            iter.member() == member,
            iter.remaining() == seq![member.attack()],
    {
        Self { member, index: 0 }
    }

    /// Yields the next action of the member, if one is left.
    pub fn next(&mut self) -> (action: Option<Action>)
        ensures
            final(self).member() == old(self).member(),
            old(self).remaining().len() == 0 ==> action is None && final(self).remaining()
                == old(self).remaining(),
            old(self).remaining().len() > 0 ==> action == Some(old(self).remaining()[0])
                && final(self).remaining() == old(self).remaining().drop_first(),
    {
        let state = self.index;
        if state == 0 {
            let damage = self.member.weapon.damage();
            let action = Action::SimpleAttack(
                SimpleAttackAction { weapon: Some(self.member.weapon), damage },
            );
            self.index = 1;
            proof {
                assert(seq![old(self).member.attack()].drop_first() =~= Seq::<Action>::empty());
            }
            Some(action)
        } else {
            None
        }
    }
}

} // verus!
