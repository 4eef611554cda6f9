use skirmish::action::AppliedAction;
use skirmish::conflict::Conflict;
use skirmish::party::Party;
use skirmish::party_member::PartyMember;
use skirmish::solver::{ExpansionResult, Node, Solver};
use skirmish::value::Cutoff;
use skirmish::value::{Score, TerminalState};
use skirmish::weapon::{Stick, Weapon};

fn duel() -> Conflict {
    let fighter = |party: usize| Party {
        id: party,
        members: vec![PartyMember {
            id: 0,
            health: 25,
            damage_taken: 0,
            weapon: Weapon::Stick(Stick { damage: 10 }),
            can_act: true,
        }],
        can_retreat: true,
        retreated: false,
    };
    Conflict { initiator: fighter(0), opponent: fighter(1) }
}

#[test]
fn root_maximizes_within_an_open_window() {
    let root = Node::new_root(duel());
    assert_eq!(root.id, 0);
    assert_eq!(root.parent_id, None);
    assert_eq!(root.turn, 0);
    assert_eq!(root.depth, 0);
    assert!(root.is_maximizing);
    assert!(matches!(root.value.value, TerminalState::Heuristic(Score::NegInfinity)));
    assert_eq!(root.value.alpha, Score::NegInfinity);
    assert_eq!(root.value.beta, Score::Infinity);
    assert_eq!(root.best_child, None);
    assert_eq!(root.action, None);
    assert!(root.action_iter.is_none());
}

#[test]
fn branch_changes_sides_and_inherits_the_window() {
    let mut parent = Node::new_root(duel());
    parent.id = 4;
    parent.value.alpha = Score::Finite(-5);
    parent.value.beta = Score::Finite(20);
    parent.value.value = TerminalState::Retreat(Score::Finite(-5));
    let state = duel().apply(0, &AppliedAction::Flee).unwrap();
    let child = Node::new_branch_from(9, &parent, AppliedAction::Flee, state);
    assert_eq!(child.id, 9);
    assert_eq!(child.parent_id, Some(4));
    assert_eq!(child.turn, 1);
    assert_eq!(child.depth, 1);
    assert!(!child.is_maximizing);
    assert!(matches!(child.value.value, TerminalState::Heuristic(Score::Infinity)));
    assert_eq!(child.value.alpha, Score::Finite(-5));
    assert_eq!(child.value.beta, Score::Finite(20));
    assert_eq!(child.best_child, None);
    assert_eq!(child.action, Some(AppliedAction::Flee));
    assert!(child.state.initiator.has_retreated());

    let state = child.state.apply(1, &AppliedAction::Flee).unwrap();
    let grandchild = Node::new_branch_from(10, &child, AppliedAction::Flee, state);
    assert!(grandchild.is_maximizing);
    assert_eq!(grandchild.turn, 2);
    assert!(matches!(grandchild.value.value, TerminalState::Heuristic(Score::NegInfinity)));
}

#[test]
fn expansion_results_hold_their_nodes() {
    let parent = Node::new_root(duel());
    let state = duel().apply(0, &AppliedAction::Flee).unwrap();
    let child = Node::new_branch_from(1, &parent, AppliedAction::Flee, state);
    match ExpansionResult::new_expansion(parent, child) {
        ExpansionResult::Expanded(expansion) => {
            assert_eq!(expansion.parent.id, 0);
            assert_eq!(expansion.child.id, 1);
        }
        ExpansionResult::Exhausted(_) => panic!("an expansion holds a child"),
    }
    match ExpansionResult::new_exhaustion(Node::new_root(duel())) {
        ExpansionResult::Exhausted(exhaustion) => assert_eq!(exhaustion.node.id, 0),
        ExpansionResult::Expanded(_) => panic!("an exhaustion holds no child"),
    }
}

fn family(parent_value: TerminalState, alpha: Score, beta: Score, maximizing: bool) -> Vec<Node> {
    let mut root = Node::new_root(duel());
    let state = duel().apply(0, &AppliedAction::Flee).unwrap();
    let mut parent = Node::new_branch_from(1, &root, AppliedAction::Flee, state);
    if maximizing {
        // A maximizing node stands at an even turn: take the root itself.
        root.value.value = parent_value;
        root.value.alpha = alpha;
        root.value.beta = beta;
        let state = duel().apply(0, &AppliedAction::Flee).unwrap();
        let child = Node::new_branch_from(1, &root, AppliedAction::Flee, state);
        return vec![root, child];
    }
    parent.value.value = parent_value;
    parent.value.alpha = alpha;
    parent.value.beta = beta;
    let state = parent.state.apply(1, &AppliedAction::Flee).unwrap();
    let child = Node::new_branch_from(2, &parent, AppliedAction::Flee, state);
    vec![root, parent, child]
}

#[test]
fn maximizing_parent_raises_alpha_whenever_it_improves() {
    // The value that is taken reaches beta: alpha is raised all the same.
    let mut nodes = family(
        TerminalState::Heuristic(Score::NegInfinity),
        Score::NegInfinity,
        Score::Finite(50),
        true,
    );
    let mut child = nodes.pop().unwrap();
    child.value.value = TerminalState::Win(Score::Finite(70));
    let cutoff = Solver::propagate_to_parent(&mut nodes, &child);
    assert_eq!(cutoff, Cutoff::Beta);
    assert!(matches!(nodes[0].value.value, TerminalState::Win(Score::Finite(70))));
    assert_eq!(nodes[0].best_child, Some(1));
    assert_eq!(nodes[0].value.alpha, Score::Finite(70));
    assert_eq!(nodes[0].value.beta, Score::Finite(50));

    // A value within the window.
    let mut nodes = family(
        TerminalState::Remain(Score::Finite(10)),
        Score::Finite(10),
        Score::Finite(50),
        true,
    );
    nodes[0].best_child = Some(7);
    let mut child = nodes.pop().unwrap();
    child.value.value = TerminalState::Win(Score::Finite(30));
    assert_eq!(Solver::propagate_to_parent(&mut nodes, &child), Cutoff::Neither);
    assert!(matches!(nodes[0].value.value, TerminalState::Win(Score::Finite(30))));
    assert_eq!(nodes[0].best_child, Some(1));
    assert_eq!(nodes[0].value.alpha, Score::Finite(30));

    // A tie keeps the earlier child, the value and the bounds.
    let mut tie = child;
    tie.id = 9;
    tie.value.value = TerminalState::Heuristic(Score::Finite(30));
    assert_eq!(Solver::propagate_to_parent(&mut nodes, &tie), Cutoff::Neither);
    assert!(matches!(nodes[0].value.value, TerminalState::Win(Score::Finite(30))));
    assert_eq!(nodes[0].best_child, Some(1));
    assert_eq!(nodes[0].value.alpha, Score::Finite(30));
    assert_eq!(nodes[0].value.beta, Score::Finite(50));
}

#[test]
fn minimizing_parent_lowers_beta_whenever_it_improves() {
    // The value that is taken reaches alpha: beta is lowered all the same.
    let mut nodes = family(
        TerminalState::Heuristic(Score::Infinity),
        Score::Finite(-5),
        Score::Infinity,
        false,
    );
    let mut child = nodes.pop().unwrap();
    child.value.value = TerminalState::Defeat(Score::Finite(-200));
    let cutoff = Solver::propagate_to_parent(&mut nodes, &child);
    assert_eq!(cutoff, Cutoff::Alpha);
    assert!(matches!(nodes[1].value.value, TerminalState::Defeat(Score::Finite(-200))));
    assert_eq!(nodes[1].best_child, Some(2));
    assert_eq!(nodes[1].value.beta, Score::Finite(-200));
    assert_eq!(nodes[1].value.alpha, Score::Finite(-5));
    // The root is left alone.
    assert_eq!(nodes[0].best_child, None);

    // A larger value changes nothing.
    let mut worse = child;
    worse.id = 5;
    worse.value.value = TerminalState::Win(Score::Finite(40));
    assert_eq!(Solver::propagate_to_parent(&mut nodes, &worse), Cutoff::Alpha);
    assert!(matches!(nodes[1].value.value, TerminalState::Defeat(Score::Finite(-200))));
    assert_eq!(nodes[1].best_child, Some(2));
    assert_eq!(nodes[1].value.beta, Score::Finite(-200));
}

#[test]
fn root_has_no_parent_to_inform() {
    let mut nodes = vec![Node::new_root(duel())];
    let mut root = Node::new_root(duel());
    root.value.value = TerminalState::Win(Score::Finite(70));
    assert_eq!(Solver::propagate_to_parent(&mut nodes, &root), Cutoff::Neither);
    assert!(matches!(nodes[0].value.value, TerminalState::Heuristic(Score::NegInfinity)));
}
