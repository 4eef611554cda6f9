use skirmish::action::{Action, AppliedAction, SimpleAttackAction, TargetedAction};
use skirmish::action_iterator::{ActionIterator, ActionTargetIterator};
use skirmish::party::{Participant, Party};
use skirmish::party_member::PartyMember;
use skirmish::weapon::{Fists, Stick, Weapon};

fn member(id: usize, health: u32, weapon: Weapon) -> PartyMember {
    PartyMember { id, health, damage_taken: 0, weapon, can_act: true }
}

fn attack(source: (usize, usize), target: (usize, usize), weapon: Weapon, damage: u32) -> AppliedAction {
    AppliedAction::Targeted(TargetedAction {
        action: Action::SimpleAttack(SimpleAttackAction { weapon: Some(weapon), damage }),
        source: Participant { party_id: source.0, member_id: source.1 },
        target: Participant { party_id: target.0, member_id: target.1 },
    })
}

#[test]
fn action_target_iterator_works() {
    let mut iter =
        ActionTargetIterator::new(member(0, 25, Weapon::Stick(Stick { damage: 10 })), 0..10);

    for t in 0..10 {
        assert_eq!(
            iter.next(),
            Some((
                Action::SimpleAttack(SimpleAttackAction {
                    weapon: Some(Weapon::Stick(Stick { damage: 10 })),
                    damage: 10
                }),
                t
            ))
        );
    }

    assert_eq!(iter.next(), None);
}

/// Same test as `action_target_iterator_works`, but this one uses a different index range.
/// This test ensures the iterator does not start or end at default indices.
#[test]
fn action_target_iterator_sliced() {
    let mut iter =
        ActionTargetIterator::new(member(0, 25, Weapon::Stick(Stick { damage: 10 })), 10..20);

    for t in 10..20 {
        assert_eq!(
            iter.next(),
            Some((
                Action::SimpleAttack(SimpleAttackAction {
                    weapon: Some(Weapon::Stick(Stick { damage: 10 })),
                    damage: 10
                }),
                t
            ))
        );
    }

    assert_eq!(iter.next(), None);
}

#[test]
fn action_target_iterator_over_nothing_is_empty() {
    let mut iter =
        ActionTargetIterator::new(member(0, 25, Weapon::Stick(Stick { damage: 10 })), 3..3);
    assert_eq!(iter.next(), None);
    assert_eq!(iter.next(), None);
}

fn heroes(can_retreat: bool) -> Party {
    Party {
        id: 0,
        members: vec![
            member(0, 25, Weapon::Stick(Stick { damage: 10 })),
            member(1, 25, Weapon::Fists(Fists { damage: 5 })),
        ],
        can_retreat,
        retreated: false,
    }
}

fn villains() -> Party {
    Party {
        id: 1,
        members: vec![
            member(0, 25, Weapon::Stick(Stick { damage: 10 })),
            member(1, 25, Weapon::Stick(Stick { damage: 10 })),
        ],
        can_retreat: false,
        retreated: false,
    }
}

#[test]
fn attack_iterator_works() {
    let mut iter = ActionIterator::new(heroes(false), villains());

    // First player attacks first opponent.
    assert_eq!(
        iter.next(),
        Some(attack((0, 0), (1, 0), Weapon::Stick(Stick { damage: 10 }), 10))
    );

    // First player attacks second opponent.
    assert_eq!(
        iter.next(),
        Some(attack((0, 0), (1, 1), Weapon::Stick(Stick { damage: 10 }), 10))
    );

    // Second player attacks first opponent.
    assert_eq!(
        iter.next(),
        Some(attack((0, 1), (1, 0), Weapon::Fists(Fists { damage: 5 }), 5))
    );

    // Second player attacks second opponent.
    assert_eq!(
        iter.next(),
        Some(attack((0, 1), (1, 1), Weapon::Fists(Fists { damage: 5 }), 5))
    );

    assert_eq!(iter.next(), None);
}

#[test]
fn retreat_comes_first() {
    let mut iter = ActionIterator::new(heroes(true), villains());
    assert_eq!(iter.next(), Some(AppliedAction::Flee));
    assert_eq!(
        iter.next(),
        Some(attack((0, 0), (1, 0), Weapon::Stick(Stick { damage: 10 }), 10))
    );
}

#[test]
fn retreat_comes_first_whatever_the_members_can_do() {
    // Against an enemy that has withdrawn.
    let mut enemy = villains();
    enemy.retreat();
    let mut iter = ActionIterator::new(heroes(true), enemy);
    assert_eq!(iter.next(), Some(AppliedAction::Flee));
    assert_eq!(
        iter.next(),
        Some(attack((0, 0), (1, 0), Weapon::Stick(Stick { damage: 10 }), 10))
    );

    // With no member left that can act, and against the dead.
    let mut party = heroes(true);
    party.members[0].health = 0;
    party.members[1].health = 0;
    let mut fallen = villains();
    fallen.members[0].health = 0;
    fallen.members[1].health = 0;
    let mut iter = ActionIterator::new(party, fallen);
    assert_eq!(iter.next(), Some(AppliedAction::Flee));
    assert_eq!(iter.next(), None);
    assert_eq!(iter.next(), None);
}

#[test]
fn retreat_comes_once() {
    let mut iter = ActionIterator::new(heroes(true), villains());
    assert_eq!(iter.next(), Some(AppliedAction::Flee));
    let mut attacks = 0;
    while let Some(action) = iter.next() {
        assert!(action != AppliedAction::Flee);
        attacks += 1;
    }
    assert_eq!(attacks, 4);
}

#[test]
fn no_retreat_without_leave_or_after_it() {
    let mut iter = ActionIterator::new(heroes(false), villains());
    assert!(iter.next() != Some(AppliedAction::Flee));
    let mut gone = heroes(true);
    gone.retreat();
    let mut iter = ActionIterator::new(gone, villains());
    assert_eq!(iter.next(), None);
}

#[test]
fn dead_and_withdrawn_members_are_skipped_and_dead_targets_are_not() {
    let mut party = heroes(false);
    party.members[0].health = 0;
    let mut enemy = villains();
    enemy.members[0].health = 0;
    let mut iter = ActionIterator::new(party, enemy);
    assert_eq!(
        iter.next(),
        Some(attack((0, 1), (1, 0), Weapon::Fists(Fists { damage: 5 }), 5))
    );
    assert_eq!(
        iter.next(),
        Some(attack((0, 1), (1, 1), Weapon::Fists(Fists { damage: 5 }), 5))
    );
    assert_eq!(iter.next(), None);

    let mut gone = heroes(false);
    gone.retreat();
    let mut iter = ActionIterator::new(gone, villains());
    assert_eq!(iter.next(), None);
}

#[test]
fn range_of_members_is_respected() {
    let mut iter = ActionIterator::new_in(heroes(false), villains(), 1..2);
    assert_eq!(
        iter.next(),
        Some(attack((0, 1), (1, 0), Weapon::Fists(Fists { damage: 5 }), 5))
    );
    assert_eq!(
        iter.next(),
        Some(attack((0, 1), (1, 1), Weapon::Fists(Fists { damage: 5 }), 5))
    );
    assert_eq!(iter.next(), None);
}
