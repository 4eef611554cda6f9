use crate::conflict::{initiator_acts, ConflictView};
use crate::game_tree::{
    decisive, deepening, engine_rules, fixed_depth, root, settle, stopping_depth, EventView, Frame,
    Rules,
};
use crate::solver::{depth_of, search, Outcome, SolverStrategy};
use crate::unwinding::{
    ends, lemma_passed, lemma_settle_counts, lemma_settle_line, lemma_settle_value,
};
use crate::utility_value::utility;
use vstd::prelude::*;

verus! {

/// Whether the line is a course of play from the given state at the given
/// ply on: each event holds the action of the side in turn, which takes
/// hold, the state that it leads to, and the number of the turn.
pub open spec fn played(state: ConflictView, ply: nat, line: Seq<EventView>) -> bool
    decreases line.len(),
{
    line.len() > 0 ==> {
        let first = line[0];
        &&& state.takes_hold(first.action, initiator_acts(ply as int))
        &&& first.state == state.after(first.action, initiator_acts(ply as int))
        &&& first.turn == ply + 1
        &&& first.depth == ply + 1
        &&& first.is_initiator_turn == initiator_acts(ply as int + 1)
        &&& played(first.state, ply + 1, line.drop_first())
    }
}

/// The state in which a line of play from the given state ends.
pub open spec fn end_of(state: ConflictView, line: Seq<EventView>) -> ConflictView {
    if line.len() > 0 {
        line.last().state
    } else {
        state
    }
}

/// Whether the node's value and line belong together: the line is a course
/// of play from the node's state, and the value is the utility of the state
/// in which it ends; without a line the node has no value yet.
pub open spec fn coherent(frame: Frame, depth: nat) -> bool {
    &&& frame.wf()
    &&& played(frame.state, frame.ply, frame.line)
    &&& frame.line.len() > 0 ==> frame.bound.value == utility(end_of(frame.state, frame.line))
        && frame.ply < depth
    &&& frame.line.len() == 0 ==> !frame.bound.value.finite()
}

/// A line that begins with an event of its own and goes on with a course
/// of play from that event's state is a course of play.
proof fn lemma_played_cons(state: ConflictView, ply: nat, first: EventView, rest: Seq<EventView>)
    requires
        state.takes_hold(first.action, initiator_acts(ply as int)),
        first.state == state.after(first.action, initiator_acts(ply as int)),
        first.turn == ply + 1,
        first.depth == ply + 1,
        first.is_initiator_turn == initiator_acts(ply as int + 1),
        played(first.state, ply + 1, rest),
    ensures
        played(state, ply, seq![first] + rest),
        end_of(state, seq![first] + rest) == end_of(first.state, rest),
{
    let line = seq![first] + rest;
    assert(line[0] == first);
    assert(line.drop_first() =~= rest);
    if rest.len() > 0 {
        assert(line.last() == rest.last());
    }
}

/// The exploration of a node ends with a course of play from the node's
/// state and with the utility of the state in which that course ends.
pub proof fn lemma_settle_is_played(frame: Frame, depth: nat, rules: Rules)
    requires
        coherent(frame, depth),
    ensures
        played(frame.state, frame.ply, settle(frame, depth, rules).line),
        settle(frame, depth, rules).value == utility(
            end_of(frame.state, settle(frame, depth, rules).line),
        ),
    decreases depth - frame.ply, frame.pending.len(),
{
    if !ends(frame, depth, rules) {
        let action = frame.pending[frame.passed() as int];
        lemma_passed(frame);
        let child = frame.child(action);
        frame.state.lemma_after_keeps_wf(action, frame.maximizing());
        lemma_settle_is_played(child, depth, rules);
        lemma_settle_value(child, depth, rules);
        let below = settle(child, depth, rules);
        let line = seq![child.event()] + below.line;
        lemma_played_cons(frame.state, frame.ply, child.event(), below.line);
        let next = frame.advance(frame.passed() + 1).absorb(below.value, line);
        lemma_settle_is_played(next, depth, rules);
    }
}

/// The line of play that a search reports is a course of play from the
/// conflict on, in which the two sides take turns, and the value that the
/// search reports is the utility of the state in which the line ends.
pub proof fn law_line_is_played(state: ConflictView, depth: nat)
    requires
        state.wf(),
    ensures
        played(state, 0, fixed_depth(state, depth).line),
        fixed_depth(state, depth).value == utility(
            end_of(state, fixed_depth(state, depth).line),
        ),
{
    lemma_settle_is_played(root(state), depth, engine_rules());
}

/// Two searches of the same conflict with the same strategy report the same
/// type of outcome, with the same score, and the same line of play.
pub proof fn law_search_is_deterministic(
    first: Outcome,
    second: Outcome,
    state: ConflictView,
    strategy: SolverStrategy,
)
    requires
        first.reports(search(state, strategy)),
        second.reports(search(state, strategy)),
    ensures
        first.outcome == second.outcome,
        first.line() == second.line(),
        first.evaluations == second.evaluations,
        first.cuts == second.cuts,
        first.max_visited_depth == second.max_visited_depth,
        first.depth_limited == second.depth_limited,
{
}

/// Two searches of the same conflict to the same depth report the same type
/// of outcome, the same line of play and the same counts.
pub proof fn law_fixed_depth_is_deterministic(
    first: Outcome,
    second: Outcome,
    state: ConflictView,
    depth: nat,
)
    requires
        first.reports(fixed_depth(state, depth)),
        second.reports(fixed_depth(state, depth)),
    ensures
        first.outcome == second.outcome,
        first.line() == second.line(),
        first.evaluations == second.evaluations,
        first.cuts == second.cuts,
        first.max_visited_depth == second.max_visited_depth,
        first.depth_limited == second.depth_limited,
{
}

/// A search of one depth ends with a number that has the sign its kind
/// owes: a win and a stand against a retreating opponent never score below
/// zero, a defeat and a retreat never above, and an estimate never below.
/// It visits no node below its depth, and it ends with a line of play if
/// the initiating party has a move.
pub proof fn law_fixed_depth_result(state: ConflictView, depth: nat)
    requires
        state.wf(),
    ensures
        fixed_depth(state, depth).value.finite(),
        fixed_depth(state, depth).value.sign_respected(),
        fixed_depth(state, depth).deepest <= depth,
        fixed_depth(state, depth).evaluations >= 1,
        fixed_depth(state, depth).cuts <= fixed_depth(state, depth).evaluations,
        depth >= 1 && !root(state).exhausted() ==> fixed_depth(state, depth).line.len() > 0,
{
    lemma_settle_value(root(state), depth, engine_rules());
    lemma_settle_counts(root(state), depth, engine_rules());
    lemma_settle_line(root(state), depth, engine_rules());
}

/// Iterative deepening from `depth` up to `limit` comes to the search of
/// one depth, the depth at which it stops. That depth lies between the two,
/// it is the first one from `depth` on whose search is decisive, and it is
/// the limit if there is none.
pub proof fn law_deepening_is_one_search(state: ConflictView, depth: nat, limit: nat)
    requires
        depth <= limit,
    ensures
        deepening(state, depth, limit) == fixed_depth(
            state,
            stopping_depth(state, depth, limit),
        ),
        depth <= stopping_depth(state, depth, limit) <= limit,
        forall|earlier: nat|
            depth <= earlier < stopping_depth(state, depth, limit) ==> !decisive(
                #[trigger] fixed_depth(state, earlier),
            ),
        stopping_depth(state, depth, limit) < limit ==> decisive(deepening(state, depth, limit)),
    decreases limit - depth,
{
    if !(decisive(fixed_depth(state, depth)) || depth >= limit) {
        law_deepening_is_one_search(state, depth + 1, limit);
    }
}

/// A search never explores past the depth of its strategy, whether it
/// deepens or not, and its result has the sign that its kind owes.
pub proof fn law_search_stays_within_depth(state: ConflictView, strategy: SolverStrategy)
    requires
        state.wf(),
    ensures
        search(state, strategy).deepest <= depth_of(strategy),
        search(state, strategy).value.finite(),
        search(state, strategy).value.sign_respected(),
{
    let limit = depth_of(strategy);
    match strategy {
        SolverStrategy::DepthLimited(_) => {
            law_fixed_depth_result(state, limit);
        },
        SolverStrategy::IterativeDeepening(_) => {
            law_deepening_is_one_search(state, 1, limit);
            law_fixed_depth_result(state, stopping_depth(state, 1, limit));
        },
    }
}

/// Where the search of depth one is decisive, or the limit is one at most,
/// iterative deepening returns the result of that search, and so a result
/// that is no worse.
pub proof fn law_deepening_keeps_a_decisive_first_search(state: ConflictView, limit: nat)
    requires
        decisive(fixed_depth(state, 1)) || limit <= 1,
    ensures
        deepening(state, 1, limit) == fixed_depth(state, 1),
        deepening(state, 1, limit).value.key() >= fixed_depth(state, 1).value.key(),
{
}

} // verus!
