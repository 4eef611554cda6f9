use crate::action::AppliedAction;
use crate::action_iterator::{moves, ActionIterator};
use crate::arena::{
    ahead, arena_ok, event_of, frame_at, lemma_all_closed, lemma_close, lemma_fresh_tree,
    lemma_last_open, lemma_open, lemma_visits_left, line_from, line_of, node_ok, path_ok,
    visits_left,
};
use crate::conflict::{initiator_acts, Conflict, ConflictView};
use crate::game_tree::{
    decisive, deepening, engine_rules, fixed_depth, larger, opening_value, opens, root, skipped,
    EventView, Frame, Tally,
};
use crate::unwinding::{
    ending, ending_value, ends, idle, join, lemma_settle_counts, lemma_settle_line, visit,
};
use crate::utility_value::{get_utility, utility};
use crate::value::{Cutoff, Score, TerminalState, Value};
use std::time::{Duration, Instant};
use vstd::prelude::*;

verus! {

/// A point in time as the system clock gives it.
#[verifier::external_type_specification]
#[verifier::external_body]
pub struct ExInstant(Instant);

/// Reads the clock through `Instant::now`. Nothing is known of the moment
/// that it returns.
#[verifier::external_body]
fn start_clock() -> Instant {
    Instant::now()
}

/// Measures the time since `start` through `Instant::elapsed`. Nothing is
/// known of the duration that it returns.
#[verifier::external_body]
fn read_clock(start: &Instant) -> Duration {
    start.elapsed()
}

/// The search engine.
pub struct Solver;

/// The strategy to use with the solver.
#[derive(Debug, Copy, Clone)]
pub enum SolverStrategy {
    /// Use a simple depth-limited search.
    DepthLimited(usize),
    /// Use iterative deepening.
    IterativeDeepening(usize),
}

/// The type of outcome, with its score in tenths of a health point.
#[derive(Debug, Copy, Clone, PartialEq)]
pub enum OutcomeType {
    /// The initiating party wins.
    Win(i128),
    /// The initiating party loses.
    Lose(i128),
    /// The initiating party remained after the opponent retreated.
    Remain(i128),
    /// The initiating party retreated.
    Retreat(i128),
    /// Unknown outcome.
    Unknown(i128),
}

/// A step of iterative deepening, recorded for the caller's diagnostics.
#[derive(Debug, Copy, Clone, PartialEq)]
pub enum DeepeningStep {
    /// A search of the given depth begins.
    Increased {
        /// The depth of the search that begins.
        depth: usize,
        /// The largest depth that will be tried.
        max_depth: usize,
    },
    /// The deepening stopped at the largest depth without a decisive result.
    Stopped {
        /// The largest depth.
        max_depth: usize,
    },
    /// The deepening finished with a decisive result.
    Finished {
        /// The depth of the decisive search.
        depth: usize,
    },
}

/// An event in the timeline.
#[derive(Debug)]
pub struct Event {
    /// The turn in which an event took place.
    pub turn: usize,
    /// Whether the initiating party acts in the state that the event led to.
    pub is_initiator_turn: bool,
    /// The action that was applied.
    pub action: AppliedAction,
    /// The depth at which this node was discovered.
    pub depth: usize,
    /// The state of the conflict after the action took place.
    pub state: Conflict,
}

impl View for Event {
    type V = EventView;

    open spec fn view(&self) -> EventView {
        EventView {
            turn: self.turn as nat,
            is_initiator_turn: self.is_initiator_turn,
            action: self.action,
            depth: self.depth as nat,
            state: self.state@,
        }
    }
}

/// An outcome of a conflict.
#[derive(Debug)]
pub struct Outcome {
    /// Whether the initiating party wins the conflict.
    pub outcome: OutcomeType,
    /// An optimal path of actions leading to the outcome.
    pub timeline: Vec<Event>,
    /// The number of node evaluations performed.
    pub evaluations: usize,
    /// The number of pruning steps performed.
    pub cuts: usize,
    /// The search duration.
    pub search_duration: Duration,
    /// The depth of the deepest node evaluated.
    pub max_visited_depth: usize,
    /// `true` if the search was depth limited and has more nodes to explore.
    pub depth_limited: bool,
    /// The steps of iterative deepening; empty for a search of one depth.
    pub deepening: Vec<DeepeningStep>,
}

/// The score as a number of tenths; an infinity becomes the largest or the
/// smallest number.
pub open spec fn tenths(score: Score) -> i128 {
    match score {
        Score::NegInfinity => i128::MIN,
        Score::Finite(tenths) => tenths,
        Score::Infinity => i128::MAX,
    }
}

/// The type of outcome that the value of the root stands for.
pub open spec fn outcome_of(value: TerminalState) -> OutcomeType {
    match value {
        TerminalState::Win(score) => OutcomeType::Win(tenths(score)),
        TerminalState::Defeat(score) => OutcomeType::Lose(tenths(score)),
        TerminalState::Remain(score) => OutcomeType::Remain(tenths(score)),
        TerminalState::Retreat(score) => OutcomeType::Retreat(tenths(score)),
        TerminalState::Heuristic(score) => OutcomeType::Unknown(tenths(score)),
        TerminalState::OpenUnexplored(score) => OutcomeType::Unknown(tenths(score)),
    }
}

/// The events of a timeline as mathematical values.
pub open spec fn timeline_view(events: Seq<Event>) -> Seq<EventView> {
    Seq::new(events.len(), |i: int| events[i]@)
}

/// A count as far as a machine word holds it.
pub open spec fn clip(count: nat) -> usize {
    if count > usize::MAX {
        usize::MAX
    } else {
        count as usize
    }
}

/// The depth that a strategy asks for; at least one.
pub open spec fn depth_of(strategy: SolverStrategy) -> nat {
    match strategy {
        SolverStrategy::DepthLimited(depth) => larger(depth as nat, 1),
        SolverStrategy::IterativeDeepening(depth) => larger(depth as nat, 1),
    }
}

/// What the search of a conflict with the given strategy comes to.
pub open spec fn search(state: ConflictView, strategy: SolverStrategy) -> Tally {
    match strategy {
        SolverStrategy::DepthLimited(_) => fixed_depth(state, depth_of(strategy)),
        SolverStrategy::IterativeDeepening(_) => deepening(state, 1, depth_of(strategy)),
    }
}

/// The steps that iterative deepening records when it goes on from `depth`
/// up to `limit`.
pub open spec fn steps_from(state: ConflictView, depth: nat, limit: nat) -> Seq<DeepeningStep>
    decreases limit - depth,
{
    let begun = seq![
        DeepeningStep::Increased { depth: depth as usize, max_depth: limit as usize },
    ];
    if decisive(fixed_depth(state, depth)) {
        begun + seq![DeepeningStep::Finished { depth: depth as usize }]
    } else if depth >= limit {
        begun + seq![DeepeningStep::Stopped { max_depth: limit as usize }]
    } else {
        begun + steps_from(state, depth + 1, limit)
    }
}

/// The steps of iterative deepening that a search with the given strategy records.
pub open spec fn steps_of(state: ConflictView, strategy: SolverStrategy) -> Seq<DeepeningStep> {
    match strategy {
        SolverStrategy::DepthLimited(_) => Seq::empty(),
        SolverStrategy::IterativeDeepening(_) => steps_from(state, 1, depth_of(strategy)),
    }
}

impl Outcome {
    /// The line of play of the outcome as a mathematical value.
    pub open spec fn line(self) -> Seq<EventView> {
        timeline_view(self.timeline@)
    }

    /// Whether the outcome reports the given result of a search: its type
    /// and its timeline are those of the result, and its counts are the
    /// result's as far as a machine word holds them.
    pub open spec fn reports(self, tally: Tally) -> bool {
        &&& self.outcome == outcome_of(tally.value)
        &&& self.line() == tally.line
        &&& self.evaluations == clip(tally.evaluations)
        &&& self.cuts == clip(tally.cuts)
        &&& self.max_visited_depth == tally.deepest
        &&& self.depth_limited == tally.depth_limited
    }

    /// Returns the number of events in the timeline.
    pub fn len(&self) -> (length: usize)
        ensures
            length == self.line().len(),
    {
        self.timeline.len()
    }
}

/// Records that a search of the given depth begins.
pub fn log_increase_search_depth_to(log: &mut Vec<DeepeningStep>, depth: usize, max_depth: usize)
    ensures
        final(log)@ == old(log)@.push(DeepeningStep::Increased { depth, max_depth }),
{
    log.push(DeepeningStep::Increased { depth, max_depth });
}

/// Records that the deepening stopped at the largest depth.
pub fn log_stop_iddfs(log: &mut Vec<DeepeningStep>, max_depth: usize)
    ensures
        final(log)@ == old(log)@.push(DeepeningStep::Stopped { max_depth }),
{
    log.push(DeepeningStep::Stopped { max_depth });
}

/// Records that the deepening finished at the given depth.
pub fn log_finish_iddfs(log: &mut Vec<DeepeningStep>, depth: usize)
    ensures
        final(log)@ == old(log)@.push(DeepeningStep::Finished { depth }),
{
    log.push(DeepeningStep::Finished { depth });
}

/// A node in the game tree.
#[derive(Debug)]
pub struct Node {
    /// The ID of the node; corresponds to the index of the node
    /// in the vector of explored nodes.
    pub id: usize,
    /// The ID of the node's immediate parent.
    /// Is `None` only for the root node.
    pub parent_id: Option<usize>,
    /// The turn at which this node appeared.
    pub turn: usize,
    /// The depth of the node. If it reaches the search depth, search is terminated.
    pub depth: usize,
    /// The action iterator; if it yields none, the node is explored completely.
    pub action_iter: Option<ActionIterator>,
    /// Whether this is a maximizing or minimizing node in minimax.
    /// If maximizing, the represents a move of the initiating party of the conflict.
    pub is_maximizing: bool,
    /// The utility value of this node and the bounds of its window.
    pub value: Value,
    /// The ID of the child that optimized the value, if any. Could be `None`
    /// if this node itself is a terminal node.
    pub best_child: Option<usize>,
    /// The action taken to arrive at this node.
    /// Is `None` only for the root node.
    pub action: Option<AppliedAction>,
    /// The state after applying the action.
    pub state: Conflict,
}

/// A node of the game tree as a mathematical value.
pub struct NodeView {
    /// The ID of the node.
    pub id: usize,
    /// The ID of the node's parent.
    pub parent_id: Option<usize>,
    /// The turn at which the node appeared.
    pub turn: usize,
    /// The depth of the node.
    pub depth: usize,
    /// The moves of the node that are still to be tried, in order.
    pub pending: Seq<AppliedAction>,
    /// Whether the node's iterator, if it has one, is in a valid state.
    pub sound: bool,
    /// Whether the initiating party acts at the node.
    pub is_maximizing: bool,
    /// The value of the node and the bounds of its window.
    pub value: Value,
    /// The ID of the child that optimized the value.
    pub best_child: Option<usize>,
    /// The action taken to arrive at the node.
    pub action: Option<AppliedAction>,
    /// The state at the node.
    pub state: ConflictView,
}

impl View for Node {
    type V = NodeView;

    open spec fn view(&self) -> NodeView {
        NodeView {
            id: self.id,
            parent_id: self.parent_id,
            turn: self.turn,
            depth: self.depth,
            pending: match self.action_iter {
                Some(iter) => iter.remaining(),
                None => moves(
                    self.state@.current(self.is_maximizing),
                    self.state@.other(self.is_maximizing),
                ),
            },
            sound: self.action_iter matches Some(iter) ==> iter.wf(),
            is_maximizing: self.is_maximizing,
            value: self.value,
            best_child: self.best_child,
            action: self.action,
            state: self.state@,
        }
    }
}

impl NodeView {
    /// The node is valid: its state and its iterator are, its depth is its
    /// turn, the initiator acts in the even turns, and the node has a
    /// parent exactly if it has an action.
    pub open spec fn wf(self) -> bool {
        &&& self.sound
        &&& self.state.wf()
        &&& self.depth == self.turn
        &&& self.is_maximizing == initiator_acts(self.turn as int)
        &&& (self.parent_id is Some) == (self.action is Some)
    }

    /// The node in the middle of its exploration, with the line of play
    /// below its best child.
    pub open spec fn frame(self, line: Seq<EventView>) -> Frame {
        Frame {
            state: self.state,
            ply: self.turn as nat,
            action: self.action,
            bound: self.value,
            pending: self.pending,
            line,
        }
    }

    /// The node before its exploration that the action leads to from this one.
    pub open spec fn branch(self, id: usize, action: AppliedAction) -> NodeView {
        let state = self.state.after(action, self.is_maximizing);
        NodeView {
            id,
            parent_id: Some(self.id),
            turn: (self.turn + 1) as usize,
            depth: (self.depth + 1) as usize,
            pending: moves(
                state.current(!self.is_maximizing),
                state.other(!self.is_maximizing),
            ),
            sound: true,
            is_maximizing: !self.is_maximizing,
            value: Value {
                value: opening_value(!self.is_maximizing),
                alpha: self.value.alpha,
                beta: self.value.beta,
            },
            best_child: None,
            action: Some(action),
            state,
        }
    }

    /// The node after the child with the given ID has reported its value.
    pub open spec fn informed(self, value: TerminalState, child: usize) -> NodeView {
        let frame = self.frame(Seq::empty());
        NodeView {
            value: frame.absorbed_bound(value),
            best_child: if frame.improved_by(value) {
                Some(child)
            } else {
                self.best_child
            },
            ..self
        }
    }

    /// Whether the other node differs from this one in its pending moves
    /// and its value at most.
    pub open spec fn resolved_as(self, other: NodeView) -> bool {
        other == NodeView {
            pending: other.pending,
            value: Value { value: other.value.value, ..self.value },
            ..self
        }
    }
}

impl Clone for Node {
    fn clone(&self) -> (copy: Self)
        ensures
            copy@ == self@,
    {
        Node {
            id: self.id,
            parent_id: self.parent_id,
            turn: self.turn,
            depth: self.depth,
            action_iter: match &self.action_iter {
                Some(iter) => Some(iter.clone()),
                None => None,
            },
            is_maximizing: self.is_maximizing,
            value: self.value,
            best_child: self.best_child,
            action: self.action,
            state: self.state.clone(),
        }
    }
}

impl Node {
    /// Creates a new root node.
    pub fn new_root(conflict: Conflict) -> (node: Self)
        ensures
            node@ == (NodeView {
                id: 0,
                parent_id: None,
                turn: 0,
                depth: 0,
                pending: moves(conflict@.initiator, conflict@.opponent),
                sound: true,
                is_maximizing: true,
                value: Value {
                    value: opening_value(true),
                    alpha: Score::NegInfinity,
                    beta: Score::Infinity,
                },
                best_child: None,
                action: None,
                state: conflict@,
            }),
    {
        Self {
            id: 0,
            parent_id: None,
            depth: 0,
            turn: 0,
            is_maximizing: true,
            value: Value::new(TerminalState::Heuristic(Score::NegInfinity)),
            best_child: None,
            action: None,
            state: conflict,
            action_iter: None,
        }
    }

    /// Ends this party's turn and by changing from maximizing to minimizing
    /// and vice versa.
    ///
    /// ## Arguments
    /// * `id` - The new ID for the node to be created.
    /// * `parent` - The parent node.
    /// * `action` - The action that lead to the expansion into the child node.
    /// * `state` - The new state observed by the child node after applying the action.
    pub fn new_branch_from(id: usize, parent: &Node, action: AppliedAction, state: Conflict) -> (node:
        Self)
        requires
            parent.turn < usize::MAX,
            parent.depth < usize::MAX,
        ensures
            node@ == (NodeView {
                id,
                parent_id: Some(parent.id),
                turn: (parent.turn + 1) as usize,
                depth: (parent.depth + 1) as usize,
                pending: moves(
                    state@.current(!parent.is_maximizing),
                    state@.other(!parent.is_maximizing),
                ),
                sound: true,
                is_maximizing: !parent.is_maximizing,
                value: Value {
                    value: opening_value(!parent.is_maximizing),
                    alpha: parent.value.alpha,
                    beta: parent.value.beta,
                },
                best_child: None,
                action: Some(action),
                state: state@,
            }),
    {
        let is_maximizing = !parent.is_maximizing;
        Self {
            id,
            parent_id: Some(parent.id),
            is_maximizing,
            value: if is_maximizing {
                parent.value.with_value(TerminalState::Heuristic(Score::NegInfinity))
            } else {
                parent.value.with_value(TerminalState::Heuristic(Score::Infinity))
            },
            best_child: None,
            depth: parent.depth + 1,
            turn: parent.turn + 1,
            action: Some(action),
            action_iter: None,
            state,
        }
    }
}

/// A tree expansion outcome.
pub enum ExpansionResult {
    /// A new node was added.
    Expanded(Expansion),
    /// No new node was added.
    Exhausted(Exhaustion),
}

/// A node together with the child that it was expanded into.
pub struct Expansion {
    /// The node that was expanded, now the parent.
    pub parent: Node,
    /// The expanded child node.
    pub child: Node,
}

/// A node that has no move left.
pub struct Exhaustion {
    /// The node that has no move left.
    pub node: Node,
}

impl ExpansionResult {
    /// Registers the `child` node as a new expansion to be explored.
    ///
    /// ## Arguments
    /// * `node` - The node that was expanded, now the parent.
    /// * `child` - The new child node to explore.
    pub fn new_expansion(node: Node, child: Node) -> (result: Self)
        ensures
            result == ExpansionResult::Expanded(Expansion { parent: node, child }),
    {
        Self::Expanded(Expansion { parent: node, child })
    }

    /// Registers the `node` as fully explored.
    ///
    /// ## Arguments
    /// * `node` - The node that has no move left.
    pub fn new_exhaustion(node: Node) -> (result: Self)
        ensures
            result == ExpansionResult::Exhausted(Exhaustion { node }),
    {
        Self::Exhausted(Exhaustion { node })
    }
}

/// The number of moves passed over is the position of the first move that
/// takes hold, or the number of all moves if none does.
pub proof fn lemma_skipped_is(
    state: ConflictView,
    initiator_turn: bool,
    pending: Seq<AppliedAction>,
    count: int,
)
    requires
        0 <= count <= pending.len(),
        forall|i: int| 0 <= i < count ==> !state.takes_hold(#[trigger] pending[i], initiator_turn),
        count < pending.len() ==> state.takes_hold(pending[count], initiator_turn),
    ensures
        skipped(state, initiator_turn, pending) == count,
    decreases pending.len(),
{
    if count > 0 {
        let rest = pending.drop_first();
        assert(!state.takes_hold(pending[0], initiator_turn));
        assert forall|i: int| 0 <= i < count - 1 implies !state.takes_hold(
            #[trigger] rest[i],
            initiator_turn,
        ) by {
            assert(rest[i] == pending[i + 1]);
        }
        if count < pending.len() {
            assert(rest[count - 1] == pending[count]);
        }
        lemma_skipped_is(state, initiator_turn, rest, count - 1);
    }
}

/// What the check of a node before its expansion comes to.
pub struct Verdict {
    /// Whether the node ends at this visit.
    pub stop: bool,
    /// Whether the node was cut off.
    pub cut: bool,
    /// Whether the node was evaluated because it lies at the depth limit.
    pub limited: bool,
}

/// Checks a node before its expansion: a maximizing node at a beta cutoff,
/// a minimizing node at an alpha cutoff and a minimizing node with a
/// negative value are cut off; any other node at the depth limit gets the
/// utility of its state.
fn check_before_expansion(node: &mut Node, max_depth: usize, Ghost(line): Ghost<Seq<EventView>>) -> (verdict:
    Verdict)
    requires
        old(node)@.wf(),
    ensures
        ({
            let frame = old(node)@.frame(line);
            let depth = max_depth as nat;
            &&& verdict.cut == frame.stops(engine_rules())
            &&& verdict.limited == (!frame.stops(engine_rules()) && frame.ply >= depth)
            &&& verdict.stop == (verdict.cut || verdict.limited)
            &&& verdict.stop ==> ends(frame, depth, engine_rules()) && final(node).value.value
                == ending_value(frame, depth, engine_rules())
            &&& !verdict.stop ==> !frame.stops(engine_rules()) && frame.ply < depth
                && final(node).value == old(node).value
            &&& old(node)@.resolved_as(final(node)@)
            &&& final(node)@.pending == old(node)@.pending
            &&& final(node)@.wf()
        }),
{
    if node.is_maximizing && node.value.is_beta_cutoff() {
        Verdict { stop: true, cut: true, limited: false }
    } else if !node.is_maximizing && node.value.is_alpha_cutoff() {
        Verdict { stop: true, cut: true, limited: false }
    } else if !node.is_maximizing && node.value.value.is_negative() {
        Verdict { stop: true, cut: true, limited: false }
    } else if node.depth >= max_depth {
        node.value.value = get_utility(&node.state);
        Verdict { stop: true, cut: false, limited: true }
    } else {
        Verdict { stop: false, cut: false, limited: false }
    }
}

/// Gives a node without a move left its final value: the one that it has
/// if that is a number, and the utility of its state otherwise.
fn resolve_exhausted(node: &mut Node, Ghost(before): Ghost<NodeView>)
    requires
        old(node)@.wf(),
        before.resolved_as(old(node)@),
    ensures
        before.resolved_as(final(node)@),
        final(node)@.wf(),
        final(node).value.value == if old(node).value.value.finite() {
            old(node).value.value
        } else {
            utility(old(node)@.state)
        },
{
    let value = if node.value.value.is_finite() {
        node.value.value
    } else {
        // If this is a terminal node we either have a winner or loser.
        get_utility(&node.state)
    };
    node.value.value = value;
}

/// Ends the exploration of the last open node: its parent, if it has one,
/// takes its value in, and the node is put back into the tree.
fn close_node(
    nodes: &mut Vec<Node>,
    node: Node,
    Ghost(open): Ghost<Seq<usize>>,
    Ghost(depth): Ghost<nat>,
)
    requires
        arena_ok(old(nodes)@, open),
        path_ok(old(nodes)@, open),
        open.len() > 0,
        ends(frame_at(old(nodes)@, open.last() as int), depth, engine_rules()),
        old(nodes)[open.last() as int]@.resolved_as(node@),
        node.value.value == ending_value(
            frame_at(old(nodes)@, open.last() as int),
            depth,
            engine_rules(),
        ),
    ensures
        arena_ok(final(nodes)@, open.drop_last()),
        path_ok(final(nodes)@, open.drop_last()),
        ahead(old(nodes)@, open, depth, engine_rules()) == join(
            ending(frame_at(old(nodes)@, open.last() as int), depth, engine_rules()),
            ahead(final(nodes)@, open.drop_last(), depth, engine_rules()),
        ),
{
    let ghost before = nodes@;
    let id = node.id;
    proof {
        lemma_last_open(before, open);
    }

    // Update the value in the nodes set first before iterating.
    Solver::propagate_to_parent(nodes, &node);

    // Replace the node in the tree with our clone.
    nodes[id] = node;
    proof {
        lemma_close(before, nodes@, open, depth, engine_rules());
    }
}

/// Adds the child to the tree and puts its parent, the last open node,
/// back with its iterator moved on.
fn open_child(
    nodes: &mut Vec<Node>,
    parent: Node,
    child: Node,
    Ghost(open): Ghost<Seq<usize>>,
    Ghost(depth): Ghost<nat>,
)
    requires
        arena_ok(old(nodes)@, open),
        path_ok(old(nodes)@, open),
        open.len() > 0,
        depth <= usize::MAX,
        !ends(frame_at(old(nodes)@, open.last() as int), depth, engine_rules()),
        ({
            let before = old(nodes)@;
            let top = open.last() as int;
            let frame = frame_at(before, top);
            &&& parent@ == (NodeView {
                pending: before[top]@.pending.skip((frame.passed() + 1) as int),
                ..before[top]@
            })
            &&& child@ == before[top]@.branch(
                before.len() as usize,
                before[top]@.pending[frame.passed() as int],
            )
            &&& parent@.wf()
            &&& child@.wf()
        }),
    ensures
        final(nodes)@.len() == old(nodes)@.len() + 1,
        arena_ok(final(nodes)@, open.push(old(nodes)@.len() as usize)),
        path_ok(final(nodes)@, open.push(old(nodes)@.len() as usize)),
        ahead(old(nodes)@, open, depth, engine_rules()) == join(
            visit(frame_at(old(nodes)@, open.last() as int).ply),
            ahead(final(nodes)@, open.push(old(nodes)@.len() as usize), depth, engine_rules()),
        ),
{
    let ghost before = nodes@;
    let id = parent.id;
    proof {
        lemma_last_open(before, open);
    }
    nodes.push(child);
    // The tree is a vector, so its size is a machine word.
    let _size = nodes.len();

    // Replace the node in the tree with our clone.
    // This is necessary because the expansion updated the iterator within the node.
    nodes[id] = parent;
    proof {
        lemma_open(before, nodes@, open, depth, engine_rules());
    }
}

impl Solver {
    /// Predicts the sequence of optimal moves to resolve the conflict,
    /// in favor of the initiating party.
    ///
    /// ## Arguments
    /// * `conflict` - The conflict situation to resolve.
    /// * `strategy` - The strategy of the search and its depth; a depth of zero counts as one.
    ///
    /// ## Returns
    /// The [`Outcome`] of the conflict.
    pub fn engage(conflict: &Conflict, strategy: SolverStrategy) -> (outcome: Outcome)
        requires
            conflict@.wf(),
            opens(conflict@),
        ensures
            outcome.reports(search(conflict@, strategy)),
            outcome.deepening@ == steps_of(conflict@, strategy),
            outcome.max_visited_depth <= depth_of(strategy),
            outcome.line().len() > 0,
    {
        match strategy {
            SolverStrategy::DepthLimited(max_depth) => {
                let max_depth = if max_depth < 1 {
                    1
                } else {
                    max_depth
                };
                Self::minimax(conflict, max_depth)
            },
            SolverStrategy::IterativeDeepening(max_depth) => {
                let max_depth = if max_depth < 1 {
                    1
                } else {
                    max_depth
                };
                let mut log: Vec<DeepeningStep> = Vec::new();
                let mut depth: usize = 1;
                loop
                    invariant
                        conflict@.wf(),
                        opens(conflict@),
                        1 <= depth <= max_depth,
                        max_depth == depth_of(strategy),
                        strategy is IterativeDeepening,
                        deepening(conflict@, depth as nat, max_depth as nat) == search(
                            conflict@,
                            strategy,
                        ),
                        log@ + steps_from(conflict@, depth as nat, max_depth as nat) == steps_of(
                            conflict@,
                            strategy,
                        ),
                    decreases max_depth - depth,
                {
                    let ghost state = conflict@;
                    let ghost before = log@;
                    log_increase_search_depth_to(&mut log, depth, max_depth);
                    let mut outcome = Self::minimax(conflict, depth);
                    let should_stop = match outcome.outcome {
                        OutcomeType::Win(_) => true,
                        OutcomeType::Lose(_) => false,
                        OutcomeType::Remain(_) => false,  // we may want to accept retreats too
                        OutcomeType::Retreat(_) => false,
                        OutcomeType::Unknown(_) => false,
                    };
                    let ghost begun = seq![DeepeningStep::Increased { depth, max_depth }];
                    if !outcome.depth_limited || should_stop {
                        log_finish_iddfs(&mut log, depth);
                        proof {
                            assert(log@ =~= before + (begun + seq![
                                DeepeningStep::Finished { depth },
                            ]));
                        }
                        outcome.deepening = log;
                        return outcome;
                    }
                    if depth >= max_depth {
                        log_stop_iddfs(&mut log, max_depth);
                        proof {
                            assert(log@ =~= before + (begun + seq![
                                DeepeningStep::Stopped { max_depth },
                            ]));
                        }
                        outcome.deepening = log;
                        return outcome;
                    }
                    proof {
                        assert(log@ + steps_from(state, (depth + 1) as nat, max_depth as nat)
                            =~= before + (begun + steps_from(
                            state,
                            (depth + 1) as nat,
                            max_depth as nat,
                        )));
                    }
                    depth = depth + 1;
                }
            },
        }
    }

    /// Tests whether the initiating party has a move in the conflict.
    pub fn has_opening(conflict: &Conflict) -> (open: bool)
        requires
            conflict@.wf(),
        ensures
            open == opens(conflict@),
    {
        let node = Node::new_root(conflict.clone());
        match Self::minimax_expand(node, 1, Ghost(Seq::empty())) {
            ExpansionResult::Exhausted(_) => false,
            ExpansionResult::Expanded(_) => true,
        }
    }

    /// Predicts the sequence of optimal moves as [`Solver::engage`] does,
    /// after testing what that function requires. Returns nothing for a
    /// conflict that is not valid or in which the initiating party has no move.
    pub fn try_engage(conflict: &Conflict, strategy: SolverStrategy) -> (outcome: Option<Outcome>)
        ensures
            outcome is Some == (conflict@.wf() && opens(conflict@)),
            outcome matches Some(found) ==> found.reports(search(conflict@, strategy))
                && found.deepening@ == steps_of(conflict@, strategy),
    {
        if conflict.is_valid() && Self::has_opening(conflict) {
            Some(Self::engage(conflict, strategy))
        } else {
            None
        }
    }

    /// Uses the minimax algorithm to find the optimal outcome.
    ///
    /// ## Arguments
    /// * `conflict` - The conflict situation to resolve.
    /// * `max_depth` - The maximum search depth in the tree. Can be used to limit search complexity.
    ///
    /// ## Returns
    /// The [`Outcome`] of the conflict.
    fn minimax(conflict: &Conflict, max_depth: usize) -> (outcome: Outcome)
        requires
            conflict@.wf(),
            opens(conflict@),
            max_depth >= 1,
        ensures
            outcome.reports(fixed_depth(conflict@, max_depth as nat)),
            outcome.deepening@.len() == 0,
            outcome.max_visited_depth <= max_depth,
            outcome.line().len() > 0,
    {
        let ghost depth = max_depth as nat;
        let ghost rules = engine_rules();
        let ghost target = fixed_depth(conflict@, depth);
        // We start with a maximizing step, so the value is
        // initialized to negative infinity.
        let mut nodes: Vec<Node> = Vec::new();
        nodes.push(Node::new_root(conflict.clone()));

        let mut depth_limited = false;

        // Track expansion statistics.
        let mut evaluations: usize = 0;
        let mut pruning_cuts: usize = 0;
        let mut max_visited_depth: usize = 0;
        let start_time = start_clock();

        let mut dfs_queue: Vec<usize> = Vec::new();
        dfs_queue.push(0);
        let ghost mut spent = idle(target.value, target.line);
        proof {
            let start = root(conflict@);
            assert(nodes@[0]@.frame(Seq::empty()) == start);
            assert(dfs_queue@ =~= seq![0usize]);
            lemma_fresh_tree(nodes@, dfs_queue@, depth, rules);
            lemma_settle_counts(start, depth, rules);
            lemma_settle_line(start, depth, rules);
        }
        while dfs_queue.len() > 0
            invariant
                arena_ok(nodes@, dfs_queue@),
                path_ok(nodes@, dfs_queue@),
                join(spent, ahead(nodes@, dfs_queue@, depth, rules)) == target,
                evaluations == clip(spent.evaluations),
                pruning_cuts == clip(spent.cuts),
                max_visited_depth == spent.deepest,
                depth_limited == spent.depth_limited,
                depth == max_depth,
                rules == engine_rules(),
                max_depth >= 1,
                target.line.len() > 0,
                target.deepest <= max_depth,
            decreases visits_left(nodes@, dfs_queue@, depth, rules),
        {
            let ghost before = nodes@;
            let ghost open = dfs_queue@;
            let ghost earlier = spent;
            proof {
                lemma_visits_left(before, open, depth, rules);
                lemma_last_open(before, open);
            }
            let id = dfs_queue.pop().unwrap();
            let ghost frame = frame_at(before, id as int);
            proof {
                assert(dfs_queue@ == open.drop_last());
            }
            evaluations = Self::count_up(evaluations, Ghost(spent.evaluations));

            // The node is cloned so that it can change while the tree is borrowed.
            let mut node = nodes[id].clone();

            // Track the deepest depths.
            if node.depth > max_visited_depth {
                max_visited_depth = node.depth;
            }
            // Terminate iteration if the look-ahead depth is reached.
            // Note that we can only know if a state is terminal once we have
            // fully expanded it. This information is available further below,
            // after the node expansion step.

            let verdict = check_before_expansion(&mut node, max_depth, Ghost(frame.line));
            if verdict.cut {
                pruning_cuts = Self::count_up(pruning_cuts, Ghost(spent.cuts));
            }
            if verdict.limited {
                depth_limited = true;
            }
            if verdict.stop {
                close_node(&mut nodes, node, Ghost(open), Ghost(depth));
                proof {
                    spent = join(earlier, ending(frame, depth, rules));
                }
                continue ;
            }
            // Expand the search tree at the current node.

            let expansion_result = Self::minimax_expand(node, nodes.len(), Ghost(frame.line));

            // Handle expansion or exhaustion of the node.
            match expansion_result {
                ExpansionResult::Exhausted(exhaustion) => {
                    let mut node = exhaustion.node;
                    resolve_exhausted(&mut node, Ghost(before[id as int]@));
                    close_node(&mut nodes, node, Ghost(open), Ghost(depth));
                    proof {
                        spent = join(earlier, ending(frame, depth, rules));
                    }
                },
                ExpansionResult::Expanded(expansion) => {
                    // Since the actions were not exhausted yet, we push the parent first
                    // so that we can continue from it later.
                    dfs_queue.push(expansion.parent.id);
                    dfs_queue.push(expansion.child.id);
                    open_child(&mut nodes, expansion.parent, expansion.child, Ghost(open), Ghost(depth));
                    proof {
                        assert(dfs_queue@ =~= open.push(before.len() as usize));
                        spent = join(earlier, visit(frame.ply));
                    }
                },
            }
        }

        proof {
            lemma_all_closed(nodes@, dfs_queue@, depth, rules);
        }
        let search_duration = read_clock(&start_time);
        Self::backtrack(
            nodes,
            evaluations,
            pruning_cuts,
            max_visited_depth,
            search_duration,
            depth_limited,
        )
    }

    /// Implements the minimax recursion as an expansion of the search tree.
    ///
    /// ## Arguments
    /// * `node` - The search node we are expanding. We take ownership in order to avoid multiple borrows.
    /// * `next_child_id` - The next available child ID, typically the current length of the list
    ///   of all known and expanded nodes.
    ///
    /// ## Returns
    /// The node that was passed in, and the child that its next move leads to
    /// if it has a move left.
    #[verifier::loop_isolation(false)]
    fn minimax_expand(node: Node, next_child_id: usize, Ghost(line): Ghost<Seq<EventView>>) -> (result:
        ExpansionResult)
        requires
            node@.wf(),
            node.turn < usize::MAX,
        ensures
            match result {
                ExpansionResult::Exhausted(exhaustion) => {
                    &&& node@.frame(line).exhausted()
                    &&& node@.resolved_as(exhaustion.node@)
                    &&& exhaustion.node.value == node.value
                    &&& exhaustion.node@.wf()
                },
                ExpansionResult::Expanded(expansion) => {
                    let frame = node@.frame(line);
                    &&& !frame.exhausted()
                    &&& expansion.parent@ == (NodeView {
                        pending: node@.pending.skip((frame.passed() + 1) as int),
                        ..node@
                    })
                    &&& expansion.child@ == node@.branch(
                        next_child_id,
                        node@.pending[frame.passed() as int],
                    )
                    &&& expansion.parent@.wf()
                    &&& expansion.child@.wf()
                },
            },
    {
        let mut node = node;
        let ghost before = node@;
        let ghost frame = before.frame(line);
        // Select the currently active party and the opponent.
        let factions = node.state.get_factions(node.turn);

        // If the party retreated from the encounter, this is a terminal state.
        if factions.current.has_retreated() {
            return ExpansionResult::new_exhaustion(node);
        }
        // If we visit this node for the first time, create the iterator.
        // On all subsequent visits we continue from the last-known state.
        let mut cursor = match node.action_iter.take() {
            Some(cursor) => cursor,
            None => ActionIterator::new(factions.current.clone(), factions.opponent.clone()),
        };
        let ghost mut count: int = 0;
        loop
            invariant
                cursor.wf(),
                0 <= count <= before.pending.len(),
                cursor.remaining() == before.pending.skip(count),
                forall|i: int|
                    0 <= i < count ==> !before.state.takes_hold(
                        #[trigger] before.pending[i],
                        before.is_maximizing,
                    ),
                node@ == (NodeView {
                    pending: moves(
                        before.state.current(before.is_maximizing),
                        before.state.other(before.is_maximizing),
                    ),
                    sound: true,
                    ..before
                }),
                node.action_iter is None,
                before.wf(),
                before.turn < usize::MAX,
                frame == before.frame(line),
                !frame.current().retreated,
            decreases cursor.remaining().len(),
        {
            let ghost rest = cursor.remaining();
            match cursor.next() {
                None => {
                    proof {
                        lemma_skipped_is(
                            before.state,
                            before.is_maximizing,
                            before.pending,
                            before.pending.len() as int,
                        );
                    }
                    node.action_iter = Some(cursor);
                    return ExpansionResult::new_exhaustion(node);
                },
                Some(action) => {
                    proof {
                        assert(rest[0] == before.pending[count]);
                        assert(rest.drop_first() =~= before.pending.skip(count + 1));
                    }
                    match node.state.apply(node.turn, &action) {
                        None => {
                            proof {
                                count = count + 1;
                            }
                        },
                        Some(state) => {
                            proof {
                                lemma_skipped_is(
                                    before.state,
                                    before.is_maximizing,
                                    before.pending,
                                    count,
                                );
                            }
                            node.action_iter = Some(cursor);
                            // Create a new branch on the board.
                            let child_node = Node::new_branch_from(next_child_id, &node, action, state);
                            return ExpansionResult::new_expansion(node, child_node);
                        },
                    }
                },
            }
        }
    }

    /// Backtracks the events from the start to one of the the most likely outcomes.
    fn backtrack(
        nodes: Vec<Node>,
        evaluations: usize,
        pruning_cuts: usize,
        max_visited_depth: usize,
        search_duration: Duration,
        depth_limited: bool,
    ) -> (outcome: Outcome)
        requires
            arena_ok(nodes@, Seq::empty()),
            nodes[0].best_child is Some,
        ensures
            outcome.outcome == outcome_of(nodes[0].value.value),
            outcome.line() == line_of(nodes@, nodes[0].best_child),
            outcome.evaluations == evaluations,
            outcome.cuts == pruning_cuts,
            outcome.max_visited_depth == max_visited_depth,
            outcome.search_duration == search_duration,
            outcome.depth_limited == depth_limited,
            outcome.deepening@.len() == 0,
    {
        proof {
            reveal(arena_ok);
        }
        // The outcome is positive only if the value of the start
        // node is positive and under the assumption that the opposing
        // player attempts to play optimally.
        let value = nodes[0].value.value;
        let outcome = match value {
            TerminalState::Win(score) => OutcomeType::Win(Self::score_tenths(score)),
            TerminalState::Defeat(score) => OutcomeType::Lose(Self::score_tenths(score)),
            TerminalState::Remain(score) => OutcomeType::Remain(Self::score_tenths(score)),
            TerminalState::Retreat(score) => OutcomeType::Retreat(Self::score_tenths(score)),
            TerminalState::Heuristic(score) => OutcomeType::Unknown(Self::score_tenths(score)),
            TerminalState::OpenUnexplored(score) => OutcomeType::Unknown(Self::score_tenths(score)),
        };

        let mut stack: Vec<Event> = Vec::new();
        let ghost whole = line_of(nodes@, nodes[0].best_child);
        proof {
            reveal(arena_ok);
        }
        assert(node_ok(nodes@, Seq::empty(), 0));
        let mut at = nodes[0].best_child.unwrap();
        loop
            invariant_except_break
                0 < at < nodes.len(),
                timeline_view(stack@) + line_from(nodes@, at as int) == whole,
            invariant
                arena_ok(nodes@, Seq::empty()),
            ensures
                timeline_view(stack@) == whole,
            decreases nodes.len() - at,
        {
            let node = &nodes[at];
            proof {
                reveal(arena_ok);
            }
            assert(node_ok(nodes@, Seq::empty(), at as int));
            let ghost before = stack@;
            stack.push(
                Event {
                    turn: node.turn,
                    is_initiator_turn: node.is_maximizing,
                    action: node.action.unwrap(),
                    state: node.state.clone(),
                    depth: node.depth,
                },
            );
            proof {
                assert(stack@.last()@ == event_of(*node));
                assert(timeline_view(stack@) =~= timeline_view(before) + seq![event_of(*node)]);
            }
            match node.best_child {
                Some(best_child) => {
                    proof {
                        assert(timeline_view(stack@) + line_from(nodes@, best_child as int)
                            =~= timeline_view(before) + line_from(nodes@, at as int));
                    }
                    at = best_child;
                },
                None => {
                    proof {
                        assert(timeline_view(stack@) =~= timeline_view(before) + line_from(
                            nodes@,
                            at as int,
                        ));
                    }
                    break ;
                },
            }
        }

        Outcome {
            outcome,
            timeline: stack,
            evaluations,
            cuts: pruning_cuts,
            max_visited_depth,
            search_duration,
            depth_limited,
            deepening: Vec::new(),
        }
    }

    /// Propagates known terminal utility values upwards in the
    /// search tree.
    ///
    /// A parent that the child's value improves takes the value, records the
    /// child as its best one and moves its bound: a maximizing parent raises
    /// alpha, a minimizing one lowers beta. The cutoff that is returned says
    /// where the parent stands afterwards; the search acts on it only when
    /// it visits the parent again.
    pub fn propagate_to_parent(nodes: &mut Vec<Node>, child_node: &Node) -> (cutoff: Cutoff)
        requires
            child_node.parent_id matches Some(parent) ==> parent < old(nodes).len() && old(
                nodes,
            )[parent as int]@.wf(),
        ensures
            final(nodes).len() == old(nodes).len(),
            child_node.parent_id is None ==> *final(nodes) == *old(nodes) && cutoff == Cutoff::Neither,
            child_node.parent_id matches Some(parent) ==> {
                &&& final(nodes)[parent as int]@ == old(nodes)[parent as int]@.informed(
                    child_node.value.value,
                    child_node.id,
                )
                &&& forall|i: int|
                    0 <= i < old(nodes).len() && i != parent ==> final(nodes)[i] == old(nodes)[i]
                &&& cutoff == if old(nodes)[parent as int].is_maximizing {
                    if final(nodes)[parent as int].value.beta_cutoff() {
                        Cutoff::Beta
                    } else {
                        Cutoff::Neither
                    }
                } else {
                    if final(nodes)[parent as int].value.alpha_cutoff() {
                        Cutoff::Alpha
                    } else {
                        Cutoff::Neither
                    }
                }
            },
    {
        let parent_id = child_node.parent_id;

        if let Some(id) = parent_id {
            let child_value = child_node.value;

            let parent_node = &mut nodes[id];
            if parent_node.is_maximizing {
                if child_value.value.gt(&parent_node.value.value) {
                    parent_node.value.value = child_value.value;
                    parent_node.best_child = Some(child_node.id);
                    parent_node.value.alpha = parent_node.value.alpha.max(
                        child_value.value.value(),
                    );
                }
                if parent_node.value.is_beta_cutoff() {
                    // beta-cutoff
                    return Cutoff::Beta;
                }
            } else {
                if child_value.value.lt(&parent_node.value.value) {
                    parent_node.value.value = child_value.value;
                    parent_node.best_child = Some(child_node.id);
                    parent_node.value.beta = parent_node.value.beta.min(
                        child_value.value.value(),
                    );
                }
                if parent_node.value.is_alpha_cutoff() {
                    // alpha-cutoff
                    return Cutoff::Alpha;
                }
            }
        }
        Cutoff::Neither
    }

    /// Returns the score as a number of tenths.
    fn score_tenths(score: Score) -> (number: i128)
        ensures
            number == tenths(score),
    {
        match score {
            Score::NegInfinity => i128::MIN,
            Score::Finite(tenths) => tenths,
            Score::Infinity => i128::MAX,
        }
    }

    /// Counts one more, as far as a machine word holds the count.
    fn count_up(count: usize, Ghost(exact): Ghost<nat>) -> (next: usize)
        requires
            count == clip(exact),
        ensures
            next == clip(exact + 1),
    {
        if count < usize::MAX {
            count + 1
        } else {
            count
        }
    }
}

} // verus!
