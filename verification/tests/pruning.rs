use skirmish::action_iterator::ActionIterator;
use skirmish::conflict::Conflict;
use skirmish::party::Party;
use skirmish::party_member::PartyMember;
use skirmish::solver::{OutcomeType, Solver, SolverStrategy};
use skirmish::utility_value::get_utility;
use skirmish::value::{Score, TerminalState};
use skirmish::weapon::{Fists, Weapon};

fn party(id: usize, members: &[(u32, u32)], can_retreat: bool) -> Party {
    Party {
        id,
        members: members
            .iter()
            .enumerate()
            .map(|(i, (health, damage))| PartyMember {
                id: i,
                health: *health,
                damage_taken: 0,
                weapon: Weapon::Fists(Fists { damage: *damage }),
                can_act: true,
            })
            .collect(),
        can_retreat,
        retreated: false,
    }
}

fn number(score: Score) -> i128 {
    match score {
        Score::Finite(tenths) => tenths,
        _ => panic!("the value of an explored node is a number"),
    }
}

fn outcome_of(value: TerminalState) -> OutcomeType {
    match value {
        TerminalState::Win(score) => OutcomeType::Win(number(score)),
        TerminalState::Defeat(score) => OutcomeType::Lose(number(score)),
        TerminalState::Remain(score) => OutcomeType::Remain(number(score)),
        TerminalState::Retreat(score) => OutcomeType::Retreat(number(score)),
        TerminalState::Heuristic(score) => OutcomeType::Unknown(number(score)),
        TerminalState::OpenUnexplored(score) => OutcomeType::Unknown(number(score)),
    }
}

/// A traversal of the game tree without any window: every node tries its
/// moves in order and keeps the first best value. With `early_defeat` a
/// minimizing node stops once its value is negative.
fn traverse(state: &Conflict, turn: usize, depth: usize, early_defeat: bool) -> (TerminalState, usize) {
    if turn >= depth {
        return (get_utility(state), 0);
    }
    let maximizing = turn % 2 == 0;
    let factions = state.get_factions(turn);
    if factions.current.has_retreated() {
        return (get_utility(state), 0);
    }
    let mut moves = ActionIterator::new(factions.current.clone(), factions.opponent.clone());
    let mut best: Option<(TerminalState, usize)> = None;
    loop {
        if early_defeat && !maximizing && best.map_or(false, |(value, _)| value.is_negative()) {
            break;
        }
        let Some(action) = moves.next() else { break };
        let Some(next) = state.apply(turn, &action) else { continue };
        let (value, below) = traverse(&next, turn + 1, depth, early_defeat);
        let better = match best {
            None => true,
            Some((held, _)) => if maximizing { value.gt(&held) } else { value.lt(&held) },
        };
        if better {
            best = Some((value, below + 1));
        }
    }
    best.unwrap_or((get_utility(state), 0))
}

fn conflicts() -> Vec<Conflict> {
    vec![
        Conflict { initiator: party(0, &[(25, 10)], false), opponent: party(1, &[(25, 10)], false) },
        Conflict {
            initiator: party(0, &[(20, 10)], true),
            opponent: party(1, &[(15, 5), (10, 20)], false),
        },
        Conflict {
            initiator: party(0, &[(20, 10)], true),
            opponent: party(1, &[(15, 5), (10, 20)], true),
        },
        Conflict {
            initiator: party(0, &[(20, 10)], true),
            opponent: party(1, &[(15, 5), (15, 20)], true),
        },
        Conflict {
            initiator: party(0, &[(20, 10)], false),
            opponent: party(1, &[(15, 5), (15, 20)], true),
        },
        Conflict {
            initiator: party(0, &[(12, 4), (9, 7)], true),
            opponent: party(1, &[(8, 3), (14, 6), (5, 0)], true),
        },
        Conflict {
            initiator: party(0, &[(6, 2), (0, 9), (7, 5)], false),
            opponent: party(1, &[(10, 4), (3, 3)], true),
        },
    ]
}

#[test]
fn window_cuts_never_change_the_decision() {
    for (index, conflict) in conflicts().iter().enumerate() {
        for depth in 1..=7 {
            let searched = Solver::engage(conflict, SolverStrategy::DepthLimited(depth));
            let (value, length) = traverse(conflict, 0, depth, true);
            assert_eq!(searched.outcome, outcome_of(value), "conflict {index} at depth {depth}");
            assert_eq!(searched.len(), length, "conflict {index} at depth {depth}");
        }
    }
}

#[test]
fn window_cuts_save_visits() {
    let conflict = &conflicts()[3];
    let searched = Solver::engage(conflict, SolverStrategy::DepthLimited(100));
    assert_eq!(searched.evaluations, 187);
    assert_eq!(searched.cuts, 31);
    assert!(!searched.depth_limited);
    let searched = Solver::engage(&conflicts()[1], SolverStrategy::DepthLimited(100));
    assert_eq!(searched.evaluations, 51);
    assert_eq!(searched.cuts, 7);
    assert_eq!(searched.max_visited_depth, 6);
}

#[test]
fn early_defeat_rule_can_differ_from_full_minimax() {
    // The initiator retreats; the opponent's first answer that hurts ends
    // the minimizing node, though a later one would be deadly.
    let conflict = &conflicts()[3];
    let searched = Solver::engage(conflict, SolverStrategy::DepthLimited(100));
    assert_eq!(searched.outcome, OutcomeType::Retreat(-5));
    let (full, _) = traverse(conflict, 0, 100, false);
    assert_eq!(outcome_of(full), OutcomeType::Lose(-200));
    // Where the rule never bites, the search agrees with full minimax.
    let duel = &conflicts()[0];
    let searched = Solver::engage(duel, SolverStrategy::DepthLimited(100));
    let (full, length) = traverse(duel, 0, 100, false);
    assert_eq!(searched.outcome, outcome_of(full));
    assert_eq!(searched.len(), length);
}

#[test]
fn signs_of_scores_follow_their_kinds() {
    for conflict in conflicts().iter() {
        for depth in 1..=7 {
            let searched = Solver::engage(conflict, SolverStrategy::DepthLimited(depth));
            match searched.outcome {
                OutcomeType::Win(score) | OutcomeType::Remain(score) | OutcomeType::Unknown(score) => {
                    assert!(score >= 0)
                }
                OutcomeType::Lose(score) | OutcomeType::Retreat(score) => assert!(score <= 0),
            }
            for event in searched.timeline.iter() {
                match get_utility(&event.state) {
                    TerminalState::Win(score)
                    | TerminalState::Remain(score)
                    | TerminalState::Heuristic(score) => assert!(number(score) >= 0),
                    TerminalState::Defeat(score) | TerminalState::Retreat(score) => {
                        assert!(number(score) <= 0)
                    }
                    TerminalState::OpenUnexplored(_) => panic!("a utility is never unexplored"),
                }
            }
        }
    }
}

#[test]
fn timeline_is_a_course_of_play_that_ends_in_the_outcome() {
    for (index, conflict) in conflicts().iter().enumerate() {
        for depth in 1..=7 {
            let searched = Solver::engage(conflict, SolverStrategy::DepthLimited(depth));
            let mut state = conflict.clone();
            for (turn, event) in searched.timeline.iter().enumerate() {
                let next = state.apply(turn, &event.action).expect("the action takes hold");
                assert_eq!(next.initiator.members, event.state.initiator.members);
                assert_eq!(next.opponent.members, event.state.opponent.members);
                assert_eq!(next.initiator.retreated, event.state.initiator.retreated);
                assert_eq!(next.opponent.retreated, event.state.opponent.retreated);
                assert_eq!(event.turn, turn + 1);
                assert_eq!(event.depth, turn + 1);
                assert_eq!(event.is_initiator_turn, (turn + 1) % 2 == 0);
                state = next;
            }
            assert_eq!(
                searched.outcome,
                outcome_of(get_utility(&state)),
                "conflict {index} at depth {depth}"
            );
        }
    }
}
