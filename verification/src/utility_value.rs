use crate::conflict::{Conflict, ConflictView};
use crate::party::{lemma_totals_bounded, total_damage_taken, total_health, Party, MAX_PARTY_SIZE};
use crate::value::{Score, TerminalState};
use vstd::prelude::*;

verus! {

/// The utility of a state, seen from the initiating party, in tenths of a
/// health point.
///
/// A defeated initiator scores minus the damage that its members have
/// taken, and a retreated one a tenth of that. Otherwise the health that
/// the initiator's members have left counts: in full against a defeated
/// opponent, and by a tenth against one that has retreated or fights on.
pub open spec fn utility(state: ConflictView) -> TerminalState {
    let toll = total_damage_taken(state.initiator.members);
    let vigour = total_health(state.initiator.members);
    if state.initiator.defeated() {
        TerminalState::Defeat(Score::Finite((-10 * toll) as i128))
    } else if state.initiator.retreated {
        TerminalState::Retreat(Score::Finite((-toll) as i128))
    } else if state.opponent.defeated() {
        TerminalState::Win(Score::Finite((10 * vigour) as i128))
    } else if state.opponent.retreated {
        TerminalState::Remain(Score::Finite(vigour as i128))
    } else {
        TerminalState::Heuristic(Score::Finite(vigour as i128))
    }
}

/// The position of a state's utility on the integer line, written out.
pub open spec fn utility_tenths(state: ConflictView) -> int {
    let toll = total_damage_taken(state.initiator.members) as int;
    let vigour = total_health(state.initiator.members) as int;
    if state.initiator.defeated() {
        -10 * toll
    } else if state.initiator.retreated {
        -toll
    } else if state.opponent.defeated() {
        10 * vigour
    } else {
        vigour
    }
}

/// The utility of a valid state is a number, it is the one that the
/// formulas give, and it has the sign that its kind owes: a win and a
/// stand against a retreating opponent never score below zero, a defeat
/// and a retreat never above, and an estimate never below.
pub proof fn lemma_utility_sign(state: ConflictView)
    requires
        state.initiator.members.len() <= MAX_PARTY_SIZE,
    ensures
        utility(state).finite(),
        utility(state).key() == utility_tenths(state),
        utility(state).sign_respected(),
        utility(state) !is OpenUnexplored,
{
    lemma_totals_bounded(state.initiator.members);
    let n = state.initiator.members.len();
    assert(n * u32::MAX <= MAX_PARTY_SIZE * u32::MAX) by (nonlinear_arith)
        requires
            n <= MAX_PARTY_SIZE,
    ;
    assert(n * u64::MAX <= MAX_PARTY_SIZE * u64::MAX) by (nonlinear_arith)
        requires
            n <= MAX_PARTY_SIZE,
    ;
}

/// Adds up the health and the damage taken of the party's members.
fn totals(party: &Party) -> (sums: (u128, u128))
    requires
        party@.members.len() <= MAX_PARTY_SIZE,
    ensures
        sums.0 == total_health(party@.members),
        sums.1 == total_damage_taken(party@.members),
        sums.0 <= MAX_PARTY_SIZE * u32::MAX,
        sums.1 <= MAX_PARTY_SIZE * u64::MAX,
{
    let n = party.members.len();
    let mut health: u128 = 0;
    let mut damage: u128 = 0;
    let mut i: usize = 0;
    while i < n
        invariant
            i <= n,
            n == party.members.len(),
            n <= MAX_PARTY_SIZE,
            health == total_health(party@.members.take(i as int)),
            damage == total_damage_taken(party@.members.take(i as int)),
        decreases n - i,
    {
        proof {
            let before = party@.members.take(i as int);
            let now = party@.members.take(i + 1);
            assert(now.drop_last() =~= before);
            assert(now.last() == party@.members[i as int]);
            lemma_totals_bounded(now);
            assert((i + 1) * u32::MAX <= MAX_PARTY_SIZE * u32::MAX) by (nonlinear_arith)
                requires
                    i + 1 <= MAX_PARTY_SIZE,
            ;
            assert((i + 1) * u64::MAX <= MAX_PARTY_SIZE * u64::MAX) by (nonlinear_arith)
                requires
                    i + 1 <= MAX_PARTY_SIZE,
            ;
        }
        let member = party.members[i];
        health = health + member.health as u128;
        damage = damage + member.damage_taken as u128;
        i = i + 1;
    }
    proof {
        assert(party@.members.take(n as int) =~= party@.members);
        lemma_totals_bounded(party@.members);
        assert(n * u32::MAX <= MAX_PARTY_SIZE * u32::MAX) by (nonlinear_arith)
            requires
                n <= MAX_PARTY_SIZE,
        ;
        assert(n * u64::MAX <= MAX_PARTY_SIZE * u64::MAX) by (nonlinear_arith)
            requires
                n <= MAX_PARTY_SIZE,
        ;
    }
    (health, damage)
}

/// Gets the utility of the current node.
pub fn get_utility(state: &Conflict) -> (result: TerminalState)
    requires
        state@.initiator.members.len() <= MAX_PARTY_SIZE,
    ensures
        result == utility(state@),
        result.finite(),
        result.key() == utility_tenths(state@),
        result.sign_respected(),
{
    proof {
        lemma_utility_sign(state@);
    }
    let (health, damage) = totals(&state.initiator);
    let defeated = state.initiator.is_defeated();
    if defeated || state.initiator.has_retreated() {
        // The current party being dead is a terminal state and always is a negative reward.
        // We sum up the total damage taken to punish strong defeats
        // harder than slight defeats.
        let toll: i128 = damage as i128;
        return if defeated {
            TerminalState::Defeat(Score::Finite(-10 * toll))
        } else {
            TerminalState::Retreat(Score::Finite(-toll))
        };
    }
    // As a naive choice, we simply sum up the health of each member.
    // This is to ensure we play less risky and don't need to heal as much.
    let vigour: i128 = health as i128;
    if state.opponent.is_defeated() {
        TerminalState::Win(Score::Finite(10 * vigour))
    } else if state.opponent.has_retreated() {
        // This is a somewhat delicate balancing. If the utility
        // value for a remain is equal to a win, the opposing party
        // changes their preferences.
        TerminalState::Remain(Score::Finite(vigour))
    } else {
        TerminalState::Heuristic(Score::Finite(vigour))
    }
}

} // verus!
