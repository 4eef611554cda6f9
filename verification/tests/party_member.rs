use skirmish::action::{Action, SimpleAttackAction};
use skirmish::party_member::PartyMember;
use skirmish::weapon::{Fists, Stick, Weapon};

#[test]
fn a_lot_of_damage() {
    let mut member = PartyMember {
        id: 0,
        health: 100,
        damage_taken: 0,
        weapon: Weapon::Stick(Stick { damage: 0 }),
        can_act: true,
    };

    // Apply more damage than the subject has health.
    let damage_dealt = member.health + 100;
    let attack = SimpleAttackAction { weapon: None, damage: damage_dealt };
    member.handle_action(&Action::SimpleAttack(attack));

    assert!(member.is_dead());

    // Health is not negative.
    assert_eq!(member.health, 0);
    assert_eq!(member.damage_taken, damage_dealt as u64);
}

#[test]
fn attack_iterator() {
    let member = PartyMember {
        id: 0,
        health: 100,
        damage_taken: 0,
        weapon: Weapon::Stick(Stick { damage: 0 }),
        can_act: true,
    };

    let mut iter = member.clone().actions();
    assert_eq!(
        iter.next(),
        Some(Action::SimpleAttack(SimpleAttackAction { weapon: Some(member.weapon), damage: 0 }))
    );
    assert_eq!(iter.next(), None);
}

#[test]
fn hit_reduces_health_and_counts_damage() {
    let mut member = PartyMember {
        id: 3,
        health: 30,
        damage_taken: 7,
        weapon: Weapon::Fists(Fists { damage: 4 }),
        can_act: true,
    };
    let hit = Action::SimpleAttack(SimpleAttackAction { weapon: None, damage: 12 });
    assert!(member.handle_action(&hit));
    assert_eq!(member.health, 18);
    assert_eq!(member.damage_taken, 19);
    assert!(member.can_act());
    assert!(member.is_applicable(&hit));
    assert_eq!(member.weapon.damage(), 4);
}

#[test]
fn the_dead_are_immune() {
    let mut member = PartyMember {
        id: 3,
        health: 5,
        damage_taken: 0,
        weapon: Weapon::Fists(Fists { damage: 4 }),
        can_act: true,
    };
    let hit = Action::SimpleAttack(SimpleAttackAction { weapon: None, damage: 5 });
    assert!(member.handle_action(&hit));
    assert!(member.is_dead());
    assert!(!member.can_act);
    assert!(!member.can_act());
    assert!(!member.is_applicable(&hit));
    let before = member;
    assert!(!member.handle_action(&hit));
    assert_eq!(member, before);
    assert_eq!(member.damage_taken, 5);
}
