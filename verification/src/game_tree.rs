use crate::action::AppliedAction;
use crate::action_iterator::moves;
use crate::conflict::{initiator_acts, ConflictView};
use crate::party::PartyView;
use crate::utility_value::utility;
use crate::value::{Score, TerminalState, Value};
use vstd::prelude::*;

verus! {

/// An event of a line of play as a mathematical value.
pub struct EventView {
    /// The turn in which the event took place.
    pub turn: nat,
    /// Whether the initiating party acts in the state that the event led to.
    pub is_initiator_turn: bool,
    /// The action that was applied.
    pub action: AppliedAction,
    /// The depth at which the event was discovered.
    pub depth: nat,
    /// The state of the conflict after the action took place.
    pub state: ConflictView,
}

/// The rules by which a node stops before all of its moves are tried.
pub struct Rules {
    /// A node stops once its value has left the window of its bounds.
    pub window_cuts: bool,
    /// A minimizing node stops once its value is negative.
    pub early_defeat: bool,
}

/// The rules of the search engine: both are in force.
pub open spec fn engine_rules() -> Rules {
    Rules { window_cuts: true, early_defeat: true }
}

/// A node of the game tree in the middle of its exploration.
pub struct Frame {
    /// The state of the conflict at the node.
    pub state: ConflictView,
    /// The number of moves that lead from the root to the node.
    pub ply: nat,
    /// The move that led to the node; none at the root.
    pub action: Option<AppliedAction>,
    /// The bounds of the node and the best value found so far.
    pub bound: Value,
    /// The moves of the node that are still to be tried, in order.
    pub pending: Seq<AppliedAction>,
    /// The line of play below the child that gave the node its value.
    pub line: Seq<EventView>,
}

/// What the exploration of a node comes to.
pub struct Tally {
    /// The value of the node.
    pub value: TerminalState,
    /// The line of play below the node that leads to the value.
    pub line: Seq<EventView>,
    /// The number of visits to nodes.
    pub evaluations: nat,
    /// The number of visits at which a node stopped early.
    pub cuts: nat,
    /// The largest ply of a visited node.
    pub deepest: nat,
    /// Whether a node was evaluated because it lay at the depth limit.
    pub depth_limited: bool,
}

/// The value with which a node starts: the worst one for the acting side.
pub open spec fn opening_value(maximizing: bool) -> TerminalState {
    if maximizing {
        TerminalState::Heuristic(Score::NegInfinity)
    } else {
        TerminalState::Heuristic(Score::Infinity)
    }
}

/// The number of moves at the front of `pending` that do not take hold.
pub open spec fn skipped(state: ConflictView, initiator_turn: bool, pending: Seq<AppliedAction>)
    -> nat
    decreases pending.len(),
{
    if pending.len() == 0 {
        0
    } else if state.takes_hold(pending[0], initiator_turn) {
        0
    } else {
        1 + skipped(state, initiator_turn, pending.drop_first())
    }
}

/// The larger of two numbers.
pub open spec fn larger(a: nat, b: nat) -> nat {
    if a >= b {
        a
    } else {
        b
    }
}

impl Frame {
    /// Whether the initiating party acts at the node: it maximizes.
    pub open spec fn maximizing(self) -> bool {
        initiator_acts(self.ply as int)
    }

    /// The party that acts at the node.
    pub open spec fn current(self) -> PartyView {
        self.state.current(self.maximizing())
    }

    /// Whether the node stops at this visit without trying a move. With
    /// the window rule a maximizing node stops at a beta cutoff and a
    /// minimizing one at an alpha cutoff; with the early-defeat rule a
    /// minimizing node stops once its value is negative.
    pub open spec fn stops(self, rules: Rules) -> bool {
        ||| rules.window_cuts && self.maximizing() && self.bound.beta_cutoff()
        ||| rules.window_cuts && !self.maximizing() && self.bound.alpha_cutoff()
        ||| rules.early_defeat && !self.maximizing() && self.bound.value.key() < 0
    }

    /// The number of pending moves that are passed over.
    pub open spec fn passed(self) -> nat {
        skipped(self.state, self.maximizing(), self.pending)
    }

    /// Whether no move is left for the node: the acting party has
    /// retreated, or none of the pending moves takes hold.
    pub open spec fn exhausted(self) -> bool {
        self.current().retreated || self.passed() >= self.pending.len()
    }

    /// The event that leads to the node.
    pub open spec fn event(self) -> EventView {
        EventView {
            turn: self.ply,
            is_initiator_turn: self.maximizing(),
            action: self.action.unwrap(),
            depth: self.ply,
            state: self.state,
        }
    }

    /// The node that the action leads to, before its exploration: it
    /// inherits the window, and its value is the worst one for its side.
    pub open spec fn child(self, action: AppliedAction) -> Frame {
        let state = self.state.after(action, self.maximizing());
        Frame {
            state,
            ply: self.ply + 1,
            action: Some(action),
            bound: Value {
                value: opening_value(!self.maximizing()),
                alpha: self.bound.alpha,
                beta: self.bound.beta,
            },
            pending: moves(
                state.current(!self.maximizing()),
                state.other(!self.maximizing()),
            ),
            line: Seq::empty(),
        }
    }

    /// The node with its first `count` pending moves used up.
    pub open spec fn advance(self, count: nat) -> Frame {
        Frame { pending: self.pending.skip(count as int), ..self }
    }

    /// The bounds of the node after a child has reported its value.
    ///
    /// A maximizing node whose value the child's value improves, by being
    /// strictly larger, takes that value and raises alpha to the child's
    /// score if that is larger. A minimizing node that is improved, by a
    /// strictly smaller value, takes it and lowers beta in the same way. A
    /// node that is not improved keeps its bounds. Whether the node is at a
    /// cutoff afterwards plays no part here: that shows at its next visit.
    pub open spec fn absorbed_bound(self, value: TerminalState) -> Value {
        if !self.improved_by(value) {
            self.bound
        } else if self.maximizing() {
            Value {
                value,
                alpha: self.bound.alpha.spec_max(value.score()),
                beta: self.bound.beta,
            }
        } else {
            Value {
                value,
                alpha: self.bound.alpha,
                beta: self.bound.beta.spec_min(value.score()),
            }
        }
    }

    /// Whether the reported value is strictly better for the acting side
    /// than the node's own.
    pub open spec fn improved_by(self, value: TerminalState) -> bool {
        if self.maximizing() {
            value.key() > self.bound.value.key()
        } else {
            value.key() < self.bound.value.key()
        }
    }

    /// The node after a child has reported its value and the line of play
    /// that begins with the child.
    pub open spec fn absorb(self, value: TerminalState, line: Seq<EventView>) -> Frame {
        Frame {
            bound: self.absorbed_bound(value),
            line: if self.improved_by(value) {
                line
            } else {
                self.line
            },
            ..self
        }
    }

    /// The node is valid: its state is, and its value is a number or the
    /// worst value for its side.
    pub open spec fn wf(self) -> bool {
        &&& self.state.wf()
        &&& self.bound.value.finite() || self.bound.value.score() == opening_value(
            self.maximizing(),
        ).score()
    }
}

/// The tally of a node that ends at this visit.
pub open spec fn leaf(frame: Frame, value: TerminalState, cut: bool, depth_limited: bool) -> Tally {
    Tally {
        value,
        line: frame.line,
        evaluations: 1,
        cuts: if cut {
            1
        } else {
            0
        },
        deepest: frame.ply,
        depth_limited,
    }
}

/// What the exploration of a node comes to from its present state on, with
/// the given depth limit and rules.
///
/// Each visit counts as an evaluation. A node that stops by the rules keeps
/// its value, and the visit counts as a cut. A node at the depth limit gets
/// the utility of its state. A node without a move left keeps its value if
/// that is a number, and gets the utility of its state otherwise. Any other
/// node passes over the moves that do not take hold, explores the child that
/// the first other move leads to, takes in the child's value, and goes on.
pub open spec fn settle(frame: Frame, depth: nat, rules: Rules) -> Tally
    decreases depth - frame.ply, frame.pending.len(),
{
    if frame.stops(rules) {
        leaf(frame, frame.bound.value, true, false)
    } else if frame.ply >= depth {
        leaf(frame, utility(frame.state), false, true)
    } else if frame.exhausted() {
        leaf(
            frame,
            if frame.bound.value.finite() {
                frame.bound.value
            } else {
                utility(frame.state)
            },
            false,
            false,
        )
    } else {
        let action = frame.pending[frame.passed() as int];
        let child = frame.child(action);
        let below = settle(child, depth, rules);
        let next = frame.advance(frame.passed() + 1).absorb(
            below.value,
            seq![child.event()] + below.line,
        );
        let rest = settle(next, depth, rules);
        Tally {
            value: rest.value,
            line: rest.line,
            evaluations: 1 + below.evaluations + rest.evaluations,
            cuts: below.cuts + rest.cuts,
            deepest: larger(below.deepest, rest.deepest),
            depth_limited: below.depth_limited || rest.depth_limited,
        }
    }
}

/// The root of the game tree of a conflict: the initiating party acts, the
/// window is open on both sides, and no move has been tried.
pub open spec fn root(state: ConflictView) -> Frame {
    Frame {
        state,
        ply: 0,
        action: None,
        bound: Value {
            value: opening_value(true),
            alpha: Score::NegInfinity,
            beta: Score::Infinity,
        },
        pending: moves(state.initiator, state.opponent),
        line: Seq::empty(),
    }
}

/// Whether the initiating party has a move in the state: it has not
/// retreated, and one of its moves takes hold.
pub open spec fn opens(state: ConflictView) -> bool {
    !root(state).exhausted()
}

/// What a search of the given depth comes to by the engine's rules.
pub open spec fn fixed_depth(state: ConflictView, depth: nat) -> Tally {
    settle(root(state), depth, engine_rules())
}

/// Whether a search result ends the deepening: the initiator wins, or the
/// tree was resolved above the depth limit.
pub open spec fn decisive(tally: Tally) -> bool {
    tally.value is Win || !tally.depth_limited
}

/// What iterative deepening comes to when it goes on from `depth` up to
/// `limit`: the result of the first depth whose search is decisive, or of
/// the limit if none is.
pub open spec fn deepening(state: ConflictView, depth: nat, limit: nat) -> Tally
    decreases limit - depth,
{
    let tally = fixed_depth(state, depth);
    if decisive(tally) || depth >= limit {
        tally
    } else {
        deepening(state, depth + 1, limit)
    }
}

/// The depth at which iterative deepening stops when it goes on from
/// `depth` up to `limit`.
pub open spec fn stopping_depth(state: ConflictView, depth: nat, limit: nat) -> nat
    decreases limit - depth,
{
    if decisive(fixed_depth(state, depth)) || depth >= limit {
        depth
    } else {
        stopping_depth(state, depth + 1, limit)
    }
}

} // verus!
