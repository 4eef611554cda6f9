use skirmish::action::{Action, AppliedAction, SimpleAttackAction, TargetedAction};
use skirmish::conflict::{is_even, Conflict};
use skirmish::party::{Participant, Party};
use skirmish::party_member::PartyMember;
use skirmish::weapon::{Stick, Weapon};

#[test]
fn is_even_works() {
    assert!(is_even(0));
    assert!(is_even(2));
    assert!(!is_even(1));
    assert!(!is_even(3));
}

fn party(id: usize, healths: &[u32]) -> Party {
    Party {
        id,
        members: healths
            .iter()
            .enumerate()
            .map(|(i, h)| PartyMember {
                id: i,
                health: *h,
                damage_taken: 0,
                weapon: Weapon::Stick(Stick { damage: 10 }),
                can_act: true,
            })
            .collect(),
        can_retreat: true,
        retreated: false,
    }
}

fn strike(source: (usize, usize), target: (usize, usize), damage: u32) -> AppliedAction {
    AppliedAction::Targeted(TargetedAction {
        action: Action::SimpleAttack(SimpleAttackAction { weapon: None, damage }),
        source: Participant { party_id: source.0, member_id: source.1 },
        target: Participant { party_id: target.0, member_id: target.1 },
    })
}

#[test]
fn factions_follow_the_turn() {
    let conflict = Conflict { initiator: party(0, &[10]), opponent: party(1, &[20, 30]) };
    let even = conflict.get_factions(0);
    assert_eq!(even.current.id, 0);
    assert_eq!(even.opponent.id, 1);
    let odd = conflict.get_factions(3);
    assert_eq!(odd.current.id, 1);
    assert_eq!(odd.opponent.id, 0);
}

#[test]
fn attack_hits_the_target_only() {
    let conflict = Conflict { initiator: party(0, &[10]), opponent: party(1, &[20, 30]) };
    let next = conflict.apply(0, &strike((0, 0), (1, 1), 12)).unwrap();
    assert_eq!(next.opponent.members[1].health, 18);
    assert_eq!(next.opponent.members[1].damage_taken, 12);
    assert_eq!(next.opponent.members[0], conflict.opponent.members[0]);
    assert_eq!(next.initiator.members, conflict.initiator.members);
    // The roles stay as they are when the opponent acts.
    let back = next.apply(1, &strike((1, 0), (0, 0), 4)).unwrap();
    assert_eq!(back.initiator.id, 0);
    assert_eq!(back.initiator.members[0].health, 6);
    assert_eq!(back.opponent.members[1].health, 18);
}

#[test]
fn attack_on_the_dead_or_the_unknown_does_not_take_hold() {
    let conflict = Conflict { initiator: party(0, &[10]), opponent: party(1, &[0, 30]) };
    assert!(conflict.apply(0, &strike((0, 0), (1, 0), 12)).is_none());
    assert!(conflict.apply(0, &strike((0, 0), (1, 7), 12)).is_none());
    assert!(conflict.apply(0, &strike((0, 0), (0, 0), 12)).is_none());
    assert!(conflict.apply(1, &strike((0, 0), (1, 1), 12)).is_none());
    assert!(conflict.apply(0, &strike((0, 0), (1, 1), 12)).is_some());
}

#[test]
fn retreat_clears_every_member() {
    let conflict = Conflict { initiator: party(0, &[10]), opponent: party(1, &[20, 30]) };
    let next = conflict.apply(1, &AppliedAction::Flee).unwrap();
    assert!(next.opponent.has_retreated());
    assert!(!next.opponent.can_act());
    assert!(next.opponent.members.iter().all(|m| !m.can_act));
    assert!(!next.opponent.is_defeated());
    assert!(!next.initiator.has_retreated());
    assert!(next.initiator.can_act());
}

#[test]
fn targeted_member_is_found_by_its_ids() {
    let conflict = Conflict { initiator: party(0, &[10]), opponent: party(1, &[20, 30]) };
    let found = conflict.targeted_member(&Participant { party_id: 1, member_id: 1 });
    assert_eq!(found.map(|m| m.health), Some(30));
    assert!(conflict.targeted_member(&Participant { party_id: 1, member_id: 2 }).is_none());
    assert!(conflict.targeted_member(&Participant { party_id: 5, member_id: 0 }).is_none());
}

#[test]
fn validity_is_tested() {
    let good = Conflict { initiator: party(0, &[10]), opponent: party(1, &[20, 30]) };
    assert!(good.is_valid());
    let same_ids = Conflict { initiator: party(1, &[10]), opponent: party(1, &[20, 30]) };
    assert!(!same_ids.is_valid());
    let mut unordered = party(1, &[20, 30]);
    unordered.members[1].id = 0;
    assert!(!unordered.is_valid());
    let mut overdrawn = party(1, &[20]);
    overdrawn.members[0].damage_taken = u64::MAX;
    assert!(!overdrawn.is_valid());
    overdrawn.members[0].health = 0;
    assert!(overdrawn.is_valid());
}

#[test]
fn replace_member_replaces_by_id() {
    let mut group = party(1, &[20, 30]);
    let mut changed = group.members[1];
    changed.health = 1;
    group.replace_member(changed);
    assert_eq!(group.members[1].health, 1);
    assert_eq!(group.members[0].health, 20);
    assert_eq!(group.len(), 2);
    let mut stranger = changed;
    stranger.id = 9;
    group.replace_member(stranger);
    assert_eq!(group.members[1].health, 1);
    assert_eq!(group.len(), 2);
}
