use crate::action::AppliedAction;
use crate::party::{Participant, Party, PartyView};
use crate::party_member::PartyMember;
use vstd::prelude::*;

verus! {

/// A conflict, specifically the state of conflict at a given turn.
///
/// The two parties keep their roles for the whole encounter: whose turn it
/// is never swaps them.
#[derive(Debug)]
pub struct Conflict {
    /// The party initiating the conflict.
    pub initiator: Party,
    /// The other involved party.
    pub opponent: Party,
}

/// A conflict as a mathematical value.
pub struct ConflictView {
    /// The party initiating the conflict.
    pub initiator: PartyView,
    /// The other involved party.
    pub opponent: PartyView,
}

impl View for Conflict {
    type V = ConflictView;

    open spec fn view(&self) -> ConflictView {
        ConflictView { initiator: self.initiator@, opponent: self.opponent@ }
    }
}

/// Whether the initiating party acts in the given turn: turns are counted
/// from zero and the initiator has the even ones.
pub open spec fn initiator_acts(turn: int) -> bool {
    turn % 2 == 0
}

impl ConflictView {
    /// Both parties are valid and have different IDs.
    pub open spec fn wf(self) -> bool {
        &&& self.initiator.wf()
        &&& self.opponent.wf()
        &&& self.initiator.id != self.opponent.id
    }

    /// The party that acts.
    pub open spec fn current(self, initiator_turn: bool) -> PartyView {
        if initiator_turn {
            self.initiator
        } else {
            self.opponent
        }
    }

    /// The party that does not act.
    pub open spec fn other(self, initiator_turn: bool) -> PartyView {
        if initiator_turn {
            self.opponent
        } else {
            self.initiator
        }
    }

    /// The conflict between the given acting party and the other one.
    pub open spec fn between(initiator_turn: bool, current: PartyView, other: PartyView)
        -> ConflictView {
        if initiator_turn {
            ConflictView { initiator: current, opponent: other }
        } else {
            ConflictView { initiator: other, opponent: current }
        }
    }

    /// Whether the action takes hold when the given side acts. A retreat
    /// always does. An attack does when it names the acting party as its
    /// source, the other party as its target, and a living member of that
    /// party.
    pub open spec fn takes_hold(self, action: AppliedAction, initiator_turn: bool) -> bool {
        match action {
            AppliedAction::Flee => true,
            AppliedAction::Targeted(targeted) => {
                let other = self.other(initiator_turn);
                let at = other.position(targeted.target.member_id);
                &&& targeted.source.party_id == self.current(initiator_turn).id
                &&& targeted.target.party_id == other.id
                &&& at < other.members.len()
                &&& !other.members[at].dead()
            },
        }
    }

    /// The state after an action that takes hold. With a retreat the acting
    /// party withdraws; with an attack the targeted member is hit. The other
    /// party's members and both parties' roles stay as they are.
    pub open spec fn after(self, action: AppliedAction, initiator_turn: bool) -> ConflictView {
        let current = self.current(initiator_turn);
        let other = self.other(initiator_turn);
        match action {
            AppliedAction::Flee => Self::between(initiator_turn, current.retreat(), other),
            AppliedAction::Targeted(targeted) => {
                let at = other.position(targeted.target.member_id);
                Self::between(
                    initiator_turn,
                    current,
                    other.replace_member(other.members[at].hit(targeted.action.damage())),
                )
            },
        }
    }

    /// The member that the participant names, if there is one.
    pub open spec fn targeted_member(self, participant: Participant) -> Option<PartyMember> {
        let party = if participant.party_id == self.initiator.id {
            Some(self.initiator)
        } else if participant.party_id == self.opponent.id {
            Some(self.opponent)
        } else {
            None
        };
        match party {
            Some(party) => {
                let at = party.position(participant.member_id);
                if at < party.members.len() {
                    Some(party.members[at])
                } else {
                    None
                }
            },
            None => None,
        }
    }

    /// An action that takes hold leads from a valid state to a valid state.
    pub proof fn lemma_after_keeps_wf(self, action: AppliedAction, initiator_turn: bool)
        requires
            self.wf(),
            self.takes_hold(action, initiator_turn),
        ensures
            self.after(action, initiator_turn).wf(),
            self.after(action, initiator_turn).initiator.id == self.initiator.id,
            self.after(action, initiator_turn).opponent.id == self.opponent.id,
            self.after(action, initiator_turn).initiator.members.len()
                == self.initiator.members.len(),
            self.after(action, initiator_turn).opponent.members.len()
                == self.opponent.members.len(),
    {
        let current = self.current(initiator_turn);
        let other = self.other(initiator_turn);
        match action {
            AppliedAction::Flee => {
                let gone = current.retreat();
                assert(gone.wf());
            },
            AppliedAction::Targeted(targeted) => {
                let at = other.position(targeted.target.member_id);
                other.lemma_position(targeted.target.member_id);
                let struck = other.members[at].hit(targeted.action.damage());
                other.members[at].lemma_hit_keeps_wf(targeted.action.damage());
                other.lemma_position_of_member(at);
                let replaced = other.replace_member(struck);
                assert(replaced.members == other.members.update(at, struck));
                assert(replaced.wf());
            },
        }
    }
}

/// A view on the factions.
pub struct Factions<'a> {
    /// The party whose turn it is.
    pub current: &'a Party,
    /// The other party.
    pub opponent: &'a Party,
}

impl Clone for Conflict {
    fn clone(&self) -> (copy: Self)
        ensures
            copy@ == self@,
    {
        Conflict { initiator: self.initiator.clone(), opponent: self.opponent.clone() }
    }
}

impl Conflict {
    /// Tests whether the conflict is valid.
    pub fn is_valid(&self) -> (valid: bool)
        ensures
            valid == self@.wf(),
    {
        self.initiator.is_valid() && self.opponent.is_valid() && self.initiator.id
            != self.opponent.id
    }

    /// Sorts out the factions in terms of whose turn it currently is
    /// and who the current opponent would be.
    pub fn get_factions(&self, turn: usize) -> (factions: Factions<'_>)
        ensures
            factions.current@ == self@.current(initiator_acts(turn as int)),
            factions.opponent@ == self@.other(initiator_acts(turn as int)),
    {
        if is_even(turn) {
            Factions { current: &self.initiator, opponent: &self.opponent }
        } else {
            Factions { current: &self.opponent, opponent: &self.initiator }
        }
    }

    /// Returns the member that the participant names, if there is one.
    pub fn targeted_member(&self, participant: &Participant) -> (member: Option<PartyMember>)
        ensures
            member == self@.targeted_member(*participant),
    {
        if participant.party_id == self.initiator.id {
            find_member(&self.initiator, participant.member_id)
        } else if participant.party_id == self.opponent.id {
            find_member(&self.opponent, participant.member_id)
        } else {
            None
        }
    }

    /// Applies an action of the party whose turn it is. Returns the state
    /// that the action leads to, or nothing if the action does not take hold.
    pub fn apply(&self, turn: usize, action: &AppliedAction) -> (next: Option<Conflict>)
        requires
            self@.wf(),
        ensures
            next is Some == self@.takes_hold(*action, initiator_acts(turn as int)),
            next matches Some(state) ==> state@ == self@.after(
                *action,
                initiator_acts(turn as int),
            ) && state@.wf(),
    {
        let ghost initiator_turn = initiator_acts(turn as int);
        let factions = self.get_factions(turn);
        match action {
            AppliedAction::Flee => {
                let mut current = factions.current.clone();
                current.retreat();
                let other = factions.opponent.clone();
                proof {
                    self@.lemma_after_keeps_wf(*action, initiator_turn);
                }
                Some(Self::arrange(turn, current, other))
            },
            AppliedAction::Targeted(targeted) => {
                if targeted.source.party_id != factions.current.id || targeted.target.party_id
                    != factions.opponent.id {
                    return None;
                }
                let found = find_member(factions.opponent, targeted.target.member_id);
                match found {
                    None => None,
                    Some(target) => {
                        let mut target = target;
                        proof {
                            let other = self@.other(initiator_turn);
                            other.lemma_position(targeted.target.member_id);
                        }
                        if target.handle_action(&targeted.action) {
                            let mut other = factions.opponent.clone();
                            other.replace_member(target);
                            let current = factions.current.clone();
                            proof {
                                self@.lemma_after_keeps_wf(*action, initiator_turn);
                            }
                            Some(Self::arrange(turn, current, other))
                        } else {
                            None
                        }
                    },
                }
            },
        }
    }

    /// Puts the acting party and the other one back into their roles.
    fn arrange(turn: usize, current: Party, other: Party) -> (state: Conflict)
        ensures
            state@ == ConflictView::between(initiator_acts(turn as int), current@, other@),
    {
        if is_even(turn) {
            Conflict { initiator: current, opponent: other }
        } else {
            Conflict { initiator: other, opponent: current }
        }
    }
}

/// Finds the first member of the party with the given ID.
fn find_member(party: &Party, id: usize) -> (member: Option<PartyMember>)
    ensures
        party@.position(id) < party@.members.len() ==> member == Some(
            party@.members[party@.position(id)],
        ),
        party@.position(id) >= party@.members.len() ==> member is None,
{
    let n = party.members.len();
    let mut i: usize = 0;
    while i < n
        invariant
            i <= n,
            n == party.members.len(),
            forall|j: int| 0 <= j < i ==> (#[trigger] party.members[j]).id != id,
        decreases n - i,
    {
        if party.members[i].id == id {
            proof {
                party@.lemma_position(id);
                let at = party@.position(id);
                if at > i {
                    assert(party@.members[i as int].id != id);
                }
                if at < i {
                    assert(party@.members[at].id != id);
                }
            }
            return Some(party.members[i]);
        }
        i = i + 1;
    }
    proof {
        party@.lemma_position(id);
        let at = party@.position(id);
        if at < n {
            assert(party@.members[at].id != id);
        }
    }
    None
}

/// Determines if a number is even.
pub fn is_even(number: usize) -> (even: bool)
    ensures
        even == initiator_acts(number as int),
{
    assert((number & 1 == 0) == (number % 2 == 0)) by (bit_vector);
    number & 1 == 0
}

} // verus!
