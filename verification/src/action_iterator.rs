use crate::action::{Action, AppliedAction, TargetedAction};
use crate::party::{Participant, Party, PartyView};
use crate::party_member::{AttackIterator, PartyMember};
use std::ops::Range;
use vstd::prelude::*;

verus! {

/// One action against each enemy position from `from` up to `to`, in
/// ascending order.
pub open spec fn sweep(action: Action, from: int, to: int) -> Seq<(Action, usize)>
    decreases to - from,
{
    if from >= to {
        Seq::empty()
    } else {
        seq![(action, from as usize)] + sweep(action, from + 1, to)
    }
}

/// The sweeps of the given actions, one action after the other.
pub open spec fn sweeps(actions: Seq<Action>, from: int, to: int) -> Seq<(Action, usize)>
    decreases actions.len(),
{
    if actions.len() == 0 {
        Seq::empty()
    } else {
        sweep(actions[0], from, to) + sweeps(actions.drop_first(), from, to)
    }
}

/// The move in which the member at position `member` of the acting party
/// performs the action against the enemy at the given position.
pub open spec fn targeted(
    current: PartyView,
    opponent: PartyView,
    member: int,
    aim: (Action, usize),
) -> AppliedAction {
    AppliedAction::Targeted(
        TargetedAction {
            action: aim.0,
            source: Participant { party_id: current.id, member_id: current.members[member].id },
            target: Participant {
                party_id: opponent.id,
                member_id: opponent.members[aim.1 as int].id,
            },
        },
    )
}

/// The moves of one member against the given enemy positions.
pub open spec fn aimed(
    current: PartyView,
    opponent: PartyView,
    member: int,
    aims: Seq<(Action, usize)>,
) -> Seq<AppliedAction> {
    Seq::new(aims.len(), |k: int| targeted(current, opponent, member, aims[k]))
}

/// The moves of the acting party's members at the positions from `from` up
/// to `to`. Members are taken in ascending order, and only those that can
/// act; each of them attacks every member of the opponent in ascending
/// order, whether that member is alive or not.
pub open spec fn member_moves(current: PartyView, opponent: PartyView, from: int, to: int) -> Seq<
    AppliedAction,
>
    decreases to - from,
{
    if from >= to {
        Seq::empty()
    } else if current.members[from].eligible() {
        aimed(
            current,
            opponent,
            from,
            sweep(current.members[from].attack(), 0, opponent.members.len() as int),
        ) + member_moves(current, opponent, from + 1, to)
    } else {
        member_moves(current, opponent, from + 1, to)
    }
}

/// The retreat, where the acting party is permitted to withdraw.
pub open spec fn flee_move(current: PartyView) -> Seq<AppliedAction> {
    if current.may_retreat() {
        seq![AppliedAction::Flee]
    } else {
        Seq::empty()
    }
}

/// All moves of the acting party in the order in which they are tried:
/// first the retreat, where the party is permitted to withdraw, then the
/// attacks of its members.
pub open spec fn moves(current: PartyView, opponent: PartyView) -> Seq<AppliedAction> {
    flee_move(current) + member_moves(
        current,
        opponent,
        0,
        current.members.len() as int,
    )
}

/// A sweep over a range that is not empty starts at the range's start.
proof fn lemma_sweep_step(action: Action, from: int, to: int)
    requires
        from < to,
    ensures
        sweep(action, from, to).len() > 0,
        sweep(action, from, to)[0] == (action, from as usize),
        sweep(action, from, to).drop_first() == sweep(action, from + 1, to),
{
    assert((seq![(action, from as usize)] + sweep(action, from + 1, to)).drop_first() =~= sweep(
        action,
        from + 1,
        to,
    ));
}

/// The moves of a member lose their first when the enemy positions do.
proof fn lemma_aimed_step(
    current: PartyView,
    opponent: PartyView,
    member: int,
    aims: Seq<(Action, usize)>,
    rest: Seq<AppliedAction>,
)
    requires
        aims.len() > 0,
    ensures
        (aimed(current, opponent, member, aims) + rest)[0] == targeted(
            current,
            opponent,
            member,
            aims[0],
        ),
        (aimed(current, opponent, member, aims) + rest).drop_first() == aimed(
            current,
            opponent,
            member,
            aims.drop_first(),
        ) + rest,
{
    assert((aimed(current, opponent, member, aims) + rest).drop_first() =~= aimed(
        current,
        opponent,
        member,
        aims.drop_first(),
    ) + rest);
}

/// An action iterator.
///
/// The iterator produces all permutations of party member attack actions
/// targeting each opponent. Actions are generated for the first party member,
/// with the first action applied to each individual opponent, then the second
/// action applied to each opponent, etc. If all actions are exhausted for all opponents,
/// the next party member is selected and the process repeats. Where the party is
/// permitted to withdraw, the retreat comes before all of them.
#[derive(Debug)]
pub struct ActionIterator {
    /// The party whose turn it is.
    current: Party,
    /// The opponent's party.
    opponent: Party,
    /// The index of the currently active member.
    current_index: usize,
    /// The index range to address in the current party.
    current_range: Range<usize>,
    /// The iterator used to generated actions targeting an enemy party member.
    iter: Option<ActionTargetIterator>,
    /// Whether the retreat is still to come.
    flee: bool,
}

/// An iterator for attack actions of a single player.
///
/// The iterator generates all permutations of actions and opponents,
/// emitting the same action for each opponent first, then producing the next
/// action for each opponent, etc.
#[derive(Debug)]
pub struct ActionTargetIterator {
    /// The current enemy being targeted.
    enemy_index: usize,
    /// The range of party member indices in the party member list.
    enemies: Range<usize>,
    /// The iterator used to generate the actions.
    iter: Option<AttackIterator>,
    /// The last action produced by the `iter`.
    action: Option<Action>,
}

impl Clone for ActionTargetIterator {
    fn clone(&self) -> (copy: Self)
        ensures
            copy == *self,
    {
        ActionTargetIterator {
            enemy_index: self.enemy_index,
            enemies: self.enemies.start..self.enemies.end,
            iter: self.iter,
            action: self.action,
        }
    }
}

impl Clone for ActionIterator {
    fn clone(&self) -> (copy: Self)
        ensures
            copy.wf() == self.wf(),
            copy.remaining() == self.remaining(),
            copy.current() == self.current(),
            copy.opponent() == self.opponent(),
    {
        ActionIterator {
            current: self.current.clone(),
            opponent: self.opponent.clone(),
            current_index: self.current_index,
            current_range: self.current_range.start..self.current_range.end,
            iter: match &self.iter {
                Some(iter) => Some(iter.clone()),
                None => None,
            },
            flee: self.flee,
        }
    }
}

impl ActionTargetIterator {
    /// The first enemy position of the range.
    pub closed spec fn first(self) -> int {
        self.enemies.start as int
    }

    /// The end of the range of enemy positions.
    pub closed spec fn end(self) -> int {
        self.enemies.end as int
    }

    /// The actions that are still to come with their enemy positions, in order.
    pub closed spec fn remaining(self) -> Seq<(Action, usize)> {
        (match self.action {
            Some(action) => sweep(action, self.enemy_index as int, self.enemies.end as int),
            None => Seq::empty(),
        }) + (match self.iter {
            Some(iter) => sweeps(iter.remaining(), self.enemies.start as int, self.enemies.end as int),
            None => Seq::empty(),
        })
    }

    /// The enemy in turn lies within the range while an action is held.
    pub closed spec fn wf(self) -> bool {
        self.action is Some ==> self.enemies.start <= self.enemy_index
    }

    /// Creates an iterator over the member's actions against the enemies at
    /// the positions of the range.
    pub fn new(member: PartyMember, enemies: Range<usize>) -> (iter: Self)
        ensures
            iter.wf(),
            iter.first() == enemies.start,
            iter.end() == enemies.end,
            iter.remaining() == sweep(member.attack(), enemies.start as int, enemies.end as int),
    {
        let actions = member.actions();
        let enemy_index = enemies.start;
        proof {
            let (from, to) = (enemies.start as int, enemies.end as int);
            assert(seq![member.attack()].drop_first() =~= Seq::<Action>::empty());
            assert(sweeps(seq![member.attack()].drop_first(), from, to) =~= Seq::empty());
            assert(sweeps(seq![member.attack()], from, to) =~= sweep(member.attack(), from, to));
        }
        Self { iter: Some(actions), enemies, enemy_index, action: None }
    }

    /// Yields the next pair of an action and an enemy position, if one is left.
    pub fn next(&mut self) -> (aim: Option<(Action, usize)>)
        requires
            old(self).wf(),
        ensures
            final(self).wf(),
            final(self).first() == old(self).first(),
            final(self).end() == old(self).end(),
            old(self).remaining().len() == 0 ==> aim is None && final(self).remaining()
                == old(self).remaining(),
            old(self).remaining().len() > 0 ==> aim == Some(old(self).remaining()[0])
                && final(self).remaining() == old(self).remaining().drop_first(),
            aim matches Some(pair) ==> old(self).first() <= pair.1 < old(self).end(),
    {
        loop
            invariant
                self.wf(),
                self.enemies == old(self).enemies,
                self.remaining() == old(self).remaining(),
            decreases
                    (match self.iter {
                        Some(iter) => iter.remaining().len() + 1,
                        None => 0,
                    }),
                    (if self.action is Some {
                        1nat
                    } else {
                        0nat
                    }),
        {
            let ghost (from, to) = (self.enemies.start as int, self.enemies.end as int);
            match self.action {
                None => {
                    let mut actions = match self.iter {
                        Some(actions) => actions,
                        None => {
                            return None;
                        },
                    };
                    let ghost before = actions.remaining();
                    match actions.next() {
                        None => {
                            // No action is left, i.e. the generator
                            // is exhausted. Discard the entire generator.
                            self.iter = None;
                            return None;
                        },
                        Some(action) => {
                            proof {
                                assert(sweeps(before, from, to) == sweep(before[0], from, to)
                                    + sweeps(before.drop_first(), from, to));
                            }
                            self.iter = Some(actions);
                            self.action = Some(action);
                            self.enemy_index = self.enemies.start;
                        },
                    }
                },
                Some(action) => {
                    if self.enemy_index < self.enemies.end {
                        let index = self.enemy_index;
                        proof {
                            lemma_sweep_step(action, index as int, to);
                            let tail = match self.iter {
                                Some(iter) => sweeps(iter.remaining(), from, to),
                                None => Seq::empty(),
                            };
                            assert((sweep(action, index as int, to) + tail).drop_first() =~= sweep(
                                action,
                                index + 1,
                                to,
                            ) + tail);
                        }
                        self.enemy_index = index + 1;
                        return Some((action, index));
                    }
                    // Every enemy was targeted: a new action is required.
                    self.action = None;
                },
            }
        }
    }
}

impl ActionIterator {
    /// The party whose turn it is.
    pub closed spec fn current(self) -> PartyView {
        self.current@
    }

    /// The opponent's party.
    pub closed spec fn opponent(self) -> PartyView {
        self.opponent@
    }

    /// The moves that are still to come, in order.
    pub closed spec fn remaining(self) -> Seq<AppliedAction> {
        let end = self.current_range.end as int;
        (if self.flee {
            seq![AppliedAction::Flee]
        } else {
            Seq::empty()
        }) + (match self.iter {
            Some(iter) => aimed(
                self.current@,
                self.opponent@,
                self.current_index as int,
                iter.remaining(),
            ) + member_moves(self.current@, self.opponent@, self.current_index + 1, end),
            None => member_moves(self.current@, self.opponent@, self.current_index as int, end),
        })
    }

    /// The iterator's position lies within its party, and the member in
    /// turn aims at the whole opposing party.
    pub closed spec fn wf(self) -> bool {
        &&& self.current_range.end <= self.current.members.len()
        &&& self.iter matches Some(iter) ==> {
            &&& self.current_index < self.current_range.end
            &&& iter.wf()
            &&& iter.first() >= 0
            &&& iter.end() == self.opponent.members.len()
        }
    }

    /// Creates a new iterator selecting all current party members,
    /// targeting all enemy party members.
    pub fn new(current: Party, opponent: Party) -> (iter: Self)
        ensures
            iter.wf(),
            iter.current() == current@,
            iter.opponent() == opponent@,
            iter.remaining() == moves(current@, opponent@),
    {
        let range = 0..current.len();
        Self::new_in(current, opponent, range)
    }

    /// Creates a new iterator selecting only a range of current party members,
    /// targeting all enemy party members.
    pub fn new_in(current: Party, opponent: Party, current_range: Range<usize>) -> (iter: Self)
        requires
            current_range.end <= current@.members.len(),
        ensures
            iter.wf(),
            iter.current() == current@,
            iter.opponent() == opponent@,
            iter.remaining() == flee_move(current@) + member_moves(
                current@,
                opponent@,
                current_range.start as int,
                current_range.end as int,
            ),
    {
        let flee = current.can_retreat && !current.has_retreated();
        let current_index = current_range.start;
        Self { current, opponent, current_index, current_range, iter: None, flee }
    }

    /// Yields the next move, if one is left.
    pub fn next(&mut self) -> (action: Option<AppliedAction>)
        requires
            old(self).wf(),
        ensures
            final(self).wf(),
            final(self).current() == old(self).current(),
            final(self).opponent() == old(self).opponent(),
            old(self).remaining().len() == 0 ==> action is None && final(self).remaining()
                == old(self).remaining(),
            old(self).remaining().len() > 0 ==> action == Some(old(self).remaining()[0])
                && final(self).remaining() == old(self).remaining().drop_first(),
    {
        if self.flee {
            let ghost me = *self;
            proof {
                let end = me.current_range.end as int;
                let tail = match me.iter {
                    Some(iter) => aimed(
                        self.current@,
                        self.opponent@,
                        self.current_index as int,
                        iter.remaining(),
                    ) + member_moves(self.current@, self.opponent@, self.current_index + 1, end),
                    None => member_moves(
                        self.current@,
                        self.opponent@,
                        self.current_index as int,
                        end,
                    ),
                };
                assert((seq![AppliedAction::Flee] + tail).drop_first() =~= Seq::empty() + tail);
            }
            self.flee = false;
            return Some(AppliedAction::Flee);
        }
        loop
            invariant
                self.wf(),
                !self.flee,
                self.current@ == old(self).current@,
                self.opponent@ == old(self).opponent@,
                self.remaining() == old(self).remaining(),
            decreases
                    (if self.current_index < self.current_range.end {
                        2 * (self.current_range.end - self.current_index) + (if self.iter is None {
                            1int
                        } else {
                            0int
                        })
                    } else {
                        0
                    }),
        {
            let ghost end = self.current_range.end as int;
            let ghost here = self.current_index as int;
            let ghost (current, opponent) = (self.current@, self.opponent@);
            // If the end of the enumeration was reached, we can exit.
            if self.current_index >= self.current_range.end {
                return None;
            }
            let mut targets = match &self.iter {
                Some(targets) => targets.clone(),
                None => {
                    // Ensure the current member can act.
                    if !self.current.members[self.current_index].can_act() {
                        self.current_index = self.current_index + 1;
                        continue ;
                    }
                    let member = self.current.members[self.current_index];
                    let target_range = 0..self.opponent.members.len();
                    ActionTargetIterator::new(member, target_range)
                },
            };
            let ghost aims = targets.remaining();
            let ghost rest = member_moves(current, opponent, here + 1, end);
            assert(self.remaining() =~= aimed(current, opponent, here, aims) + rest);
            match targets.next() {
                None => {
                    // The iterator was exhausted, so we continue with the next member.
                    assert(aimed(current, opponent, here, aims) =~= Seq::empty());
                    self.current_index = self.current_index + 1;
                    self.iter = None;
                },
                Some((action, target_index)) => {
                    let source = Participant {
                        party_id: self.current.id,
                        member_id: self.current.members[self.current_index].id,
                    };
                    let target = Participant {
                        party_id: self.opponent.id,
                        member_id: self.opponent.members[target_index].id,
                    };
                    proof {
                        lemma_aimed_step(current, opponent, here, aims, rest);
                    }
                    self.iter = Some(targets);
                    return Some(
                        AppliedAction::Targeted(TargetedAction { action, source, target }),
                    );
                },
            }
        }
    }
}

} // verus!
