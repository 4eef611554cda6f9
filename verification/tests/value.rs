use skirmish::conflict::Conflict;
use skirmish::party::Party;
use skirmish::party_member::PartyMember;
use skirmish::utility_value::get_utility;
use skirmish::value::{Score, TerminalState, Value};
use skirmish::weapon::{Fists, Weapon};

fn party(id: usize, members: &[(u32, u64)], retreated: bool) -> Party {
    Party {
        id,
        members: members
            .iter()
            .enumerate()
            .map(|(i, (health, damage_taken))| PartyMember {
                id: i,
                health: *health,
                damage_taken: *damage_taken,
                weapon: Weapon::Fists(Fists { damage: 1 }),
                can_act: !retreated && *health > 0,
            })
            .collect(),
        can_retreat: true,
        retreated,
    }
}

fn kind_and_score(state: TerminalState) -> (&'static str, i128) {
    let score = match state.value() {
        Score::Finite(tenths) => tenths,
        _ => panic!("the utility is a number"),
    };
    let kind = match state {
        TerminalState::Win(_) => "win",
        TerminalState::Defeat(_) => "defeat",
        TerminalState::Remain(_) => "remain",
        TerminalState::Retreat(_) => "retreat",
        TerminalState::Heuristic(_) => "heuristic",
        TerminalState::OpenUnexplored(_) => "open",
    };
    (kind, score)
}

#[test]
fn utility_of_a_defeat_is_minus_the_damage_taken() {
    let state = Conflict {
        initiator: party(0, &[(0, 30), (0, 12)], false),
        opponent: party(1, &[(5, 0)], false),
    };
    assert_eq!(kind_and_score(get_utility(&state)), ("defeat", -420));
}

#[test]
fn utility_of_a_retreat_is_a_tenth_of_minus_the_damage_taken() {
    let state = Conflict {
        initiator: party(0, &[(7, 30), (0, 12)], true),
        opponent: party(1, &[(0, 9)], false),
    };
    assert_eq!(kind_and_score(get_utility(&state)), ("retreat", -42));
}

#[test]
fn defeat_comes_before_retreat() {
    let state = Conflict {
        initiator: party(0, &[(0, 30)], true),
        opponent: party(1, &[(5, 0)], false),
    };
    assert_eq!(kind_and_score(get_utility(&state)), ("defeat", -300));
}

#[test]
fn utility_of_a_win_is_the_health_left() {
    let state = Conflict {
        initiator: party(0, &[(7, 30), (0, 12), (4, 0)], false),
        opponent: party(1, &[(0, 9)], true),
    };
    assert_eq!(kind_and_score(get_utility(&state)), ("win", 110));
}

#[test]
fn utility_of_a_stand_and_of_an_estimate_is_a_tenth_of_the_health_left() {
    let stand = Conflict {
        initiator: party(0, &[(7, 30), (4, 0)], false),
        opponent: party(1, &[(3, 9)], true),
    };
    assert_eq!(kind_and_score(get_utility(&stand)), ("remain", 11));
    let open = Conflict {
        initiator: party(0, &[(7, 30), (4, 0)], false),
        opponent: party(1, &[(3, 9)], false),
    };
    assert_eq!(kind_and_score(get_utility(&open)), ("heuristic", 11));
}

#[test]
fn scores_are_ordered_with_the_infinities_at_the_ends() {
    let low = Score::NegInfinity;
    let high = Score::Infinity;
    let zero = Score::Finite(0);
    assert!(low.lt(&zero) && zero.lt(&high) && low.lt(&high));
    assert!(!high.lt(&high) && !low.lt(&low) && high.le(&high));
    assert!(low.is_negative() && !zero.is_negative() && !high.is_negative());
    assert!(Score::Finite(-1).is_negative());
    assert!(zero.is_finite() && !low.is_finite() && !high.is_finite());
    assert_eq!(Score::Finite(3).max(Score::Finite(4)), Score::Finite(4));
    assert_eq!(Score::Finite(3).min(high), Score::Finite(3));
    assert_eq!(Score::Finite(i128::MIN).max(low), Score::Finite(i128::MIN));
}

#[test]
fn states_compare_by_their_scores() {
    let win = TerminalState::Win(Score::Finite(5));
    let guess = TerminalState::Heuristic(Score::Finite(5));
    let loss = TerminalState::Defeat(Score::Finite(-20));
    assert_eq!(win, guess);
    assert!(win != loss);
    assert!(loss.lt(&win) && win.gt(&loss) && !win.gt(&guess) && !win.lt(&guess));
    assert!(loss.is_negative() && !win.is_negative());
    assert!(!TerminalState::Heuristic(Score::Infinity).is_finite());
}

#[test]
fn cutoffs_need_a_number() {
    let fresh = Value::new(TerminalState::Heuristic(Score::NegInfinity));
    assert_eq!(fresh.alpha, Score::NegInfinity);
    assert_eq!(fresh.beta, Score::Infinity);
    assert!(!fresh.is_alpha_cutoff());
    assert!(!fresh.is_beta_cutoff());
    let window = Value::new_with(
        Score::Finite(-5),
        TerminalState::Heuristic(Score::Infinity),
        Score::Finite(20),
    );
    assert!(!window.is_beta_cutoff());
    let low = window.with_value(TerminalState::Retreat(Score::Finite(-5)));
    assert!(low.is_alpha_cutoff() && !low.is_beta_cutoff());
    assert_eq!(low.alpha, Score::Finite(-5));
    assert_eq!(low.beta, Score::Finite(20));
    let high = window.with_value(TerminalState::Win(Score::Finite(20)));
    assert!(high.is_beta_cutoff() && !high.is_alpha_cutoff());
    let inside = window.with_value(TerminalState::Win(Score::Finite(19)));
    assert!(!inside.is_beta_cutoff() && !inside.is_alpha_cutoff());
}
