use crate::game_tree::{larger, leaf, settle, EventView, Frame, Rules, Tally};
use crate::utility_value::{lemma_utility_sign, utility};
use crate::value::TerminalState;
use vstd::prelude::*;

verus! {

/// The tally of one piece of work followed by another: the counts add up,
/// and the value and the line are those of the second.
pub open spec fn join(first: Tally, then: Tally) -> Tally {
    Tally {
        value: then.value,
        line: then.line,
        evaluations: first.evaluations + then.evaluations,
        cuts: first.cuts + then.cuts,
        deepest: larger(first.deepest, then.deepest),
        depth_limited: first.depth_limited || then.depth_limited,
    }
}

/// A tally of no work that carries the given value and line.
pub open spec fn idle(value: TerminalState, line: Seq<EventView>) -> Tally {
    Tally { value, line, evaluations: 0, cuts: 0, deepest: 0, depth_limited: false }
}

/// What is left to do on a path of open nodes once the node below its last
/// one has ended with the given value and line: the last node takes the
/// value in and is explored to its end, then the node above it, up to the
/// first. The value and the line of the result are those of the first node.
pub open spec fn finish(
    path: Seq<Frame>,
    event: EventView,
    value: TerminalState,
    line: Seq<EventView>,
    depth: nat,
    rules: Rules,
) -> Tally
    decreases path.len(),
{
    if path.len() == 0 {
        idle(value, line)
    } else {
        let parent = path.last().absorb(value, seq![event] + line);
        let own = settle(parent, depth, rules);
        join(own, finish(path.drop_last(), parent.event(), own.value, own.line, depth, rules))
    }
}

/// What is left to do on a path of open nodes, each the child of the one
/// before it: the last node is explored to its end, and its ancestors after it.
pub open spec fn outstanding(path: Seq<Frame>, depth: nat, rules: Rules) -> Tally {
    let top = path.last();
    let own = settle(top, depth, rules);
    join(own, finish(path.drop_last(), top.event(), own.value, own.line, depth, rules))
}

/// Whether the node ends at this visit.
pub open spec fn ends(frame: Frame, depth: nat, rules: Rules) -> bool {
    frame.stops(rules) || frame.ply >= depth || frame.exhausted()
}

/// The value with which a node ends at this visit.
pub open spec fn ending_value(frame: Frame, depth: nat, rules: Rules) -> TerminalState {
    if frame.stops(rules) {
        frame.bound.value
    } else if frame.ply >= depth {
        utility(frame.state)
    } else if frame.bound.value.finite() {
        frame.bound.value
    } else {
        utility(frame.state)
    }
}

/// The tally of the visit at which a node ends.
pub open spec fn ending(frame: Frame, depth: nat, rules: Rules) -> Tally {
    leaf(
        frame,
        ending_value(frame, depth, rules),
        frame.stops(rules),
        !frame.stops(rules) && frame.ply >= depth,
    )
}

/// A tally of one visit that neither cuts nor meets the depth limit.
pub open spec fn visit(ply: nat) -> Tally {
    Tally {
        value: arbitrary(),
        line: Seq::empty(),
        evaluations: 1,
        cuts: 0,
        deepest: ply,
        depth_limited: false,
    }
}

/// The path after its last node has ended: the node above it has taken the
/// value in.
pub open spec fn closed_path(path: Seq<Frame>, depth: nat, rules: Rules) -> Seq<Frame> {
    let top = path.last();
    let parent = path[path.len() - 2].absorb(
        ending_value(top, depth, rules),
        seq![top.event()] + top.line,
    );
    path.drop_last().drop_last().push(parent)
}

/// The path after its last node has opened its next child.
pub open spec fn opened_path(path: Seq<Frame>) -> Seq<Frame> {
    let top = path.last();
    path.drop_last().push(top.advance(top.passed() + 1)).push(
        top.child(top.pending[top.passed() as int]),
    )
}

/// Every exploration visits its node, and goes no deeper than the depth
/// limit unless the node itself lies below it.
pub proof fn lemma_settle_counts(frame: Frame, depth: nat, rules: Rules)
    ensures
        settle(frame, depth, rules).evaluations >= 1,
        settle(frame, depth, rules).cuts <= settle(frame, depth, rules).evaluations,
        settle(frame, depth, rules).deepest >= frame.ply,
        settle(frame, depth, rules).deepest <= larger(frame.ply, depth),
    decreases depth - frame.ply, frame.pending.len(),
{
    if !ends(frame, depth, rules) {
        let action = frame.pending[frame.passed() as int];
        let child = frame.child(action);
        lemma_settle_counts(child, depth, rules);
        let below = settle(child, depth, rules);
        let next = frame.advance(frame.passed() + 1).absorb(
            below.value,
            seq![child.event()] + below.line,
        );
        lemma_settle_counts(next, depth, rules);
    }
}

/// The value that an exploration ends with is a number with the sign that
/// its kind owes, provided that the node's own value is.
pub proof fn lemma_settle_value(frame: Frame, depth: nat, rules: Rules)
    requires
        frame.wf(),
        frame.bound.value.finite() ==> frame.bound.value.sign_respected(),
    ensures
        settle(frame, depth, rules).value.finite(),
        settle(frame, depth, rules).value.sign_respected(),
    decreases depth - frame.ply, frame.pending.len(),
{
    lemma_utility_sign(frame.state);
    if frame.stops(rules) {
        assert(frame.bound.value.finite());
    } else if !ends(frame, depth, rules) {
        let action = frame.pending[frame.passed() as int];
        lemma_passed(frame);
        let child = frame.child(action);
        frame.state.lemma_after_keeps_wf(action, frame.maximizing());
        lemma_settle_value(child, depth, rules);
        let below = settle(child, depth, rules);
        let next = frame.advance(frame.passed() + 1).absorb(
            below.value,
            seq![child.event()] + below.line,
        );
        lemma_settle_value(next, depth, rules);
    }
}

/// A node with a move left ends with a line of play, provided that it has
/// one whenever its value is a number.
pub proof fn lemma_settle_line(frame: Frame, depth: nat, rules: Rules)
    requires
        frame.wf(),
        frame.bound.value.finite() ==> frame.bound.value.sign_respected(),
        frame.bound.value.finite() ==> frame.line.len() > 0,
    ensures
        !ends(frame, depth, rules) ==> settle(frame, depth, rules).line.len() > 0,
        frame.line.len() > 0 ==> settle(frame, depth, rules).line.len() > 0,
    decreases depth - frame.ply, frame.pending.len(),
{
    if !ends(frame, depth, rules) {
        let action = frame.pending[frame.passed() as int];
        lemma_passed(frame);
        let child = frame.child(action);
        frame.state.lemma_after_keeps_wf(action, frame.maximizing());
        lemma_settle_value(child, depth, rules);
        let below = settle(child, depth, rules);
        let next = frame.advance(frame.passed() + 1).absorb(
            below.value,
            seq![child.event()] + below.line,
        );
        lemma_settle_line(next, depth, rules);
    }
}

/// The moves passed over do not take hold, and the move after them does.
pub proof fn lemma_passed(frame: Frame)
    ensures
        frame.passed() <= frame.pending.len(),
        forall|i: int|
            0 <= i < frame.passed() ==> !frame.state.takes_hold(
                #[trigger] frame.pending[i],
                frame.maximizing(),
            ),
        frame.passed() < frame.pending.len() ==> frame.state.takes_hold(
            frame.pending[frame.passed() as int],
            frame.maximizing(),
        ),
    decreases frame.pending.len(),
{
    if frame.pending.len() > 0 && !frame.state.takes_hold(frame.pending[0], frame.maximizing()) {
        let rest = Frame { pending: frame.pending.drop_first(), ..frame };
        lemma_passed(rest);
        assert forall|i: int| 0 <= i < frame.passed() implies !frame.state.takes_hold(
            #[trigger] frame.pending[i],
            frame.maximizing(),
        ) by {
            if i > 0 {
                assert(frame.pending[i] == rest.pending[i - 1]);
            }
        }
    }
}

/// When the last node of a path ends at this visit, what is left to do is
/// that visit and then what is left on the path without the node.
pub proof fn lemma_leaf_step(path: Seq<Frame>, depth: nat, rules: Rules)
    requires
        path.len() > 0,
        ends(path.last(), depth, rules),
    ensures
        settle(path.last(), depth, rules) == ending(path.last(), depth, rules),
        path.len() == 1 ==> outstanding(path, depth, rules) == join(
            ending(path.last(), depth, rules),
            idle(ending_value(path.last(), depth, rules), path.last().line),
        ),
        path.len() > 1 ==> outstanding(path, depth, rules) == join(
            ending(path.last(), depth, rules),
            outstanding(closed_path(path, depth, rules), depth, rules),
        ),
{
    let top = path.last();
    let own = settle(top, depth, rules);
    assert(own == ending(top, depth, rules));
    if path.len() > 1 {
        let above = path.drop_last();
        let after = closed_path(path, depth, rules);
        assert(after.last() == above.last().absorb(own.value, seq![top.event()] + own.line));
        assert(after.drop_last() =~= above.drop_last());
    } else {
        assert(path.drop_last().len() == 0);
    }
}

/// When the last node of a path opens a child, what is left to do is that
/// visit and then what is left on the path with the child.
pub proof fn lemma_expand_step(path: Seq<Frame>, depth: nat, rules: Rules)
    requires
        path.len() > 0,
        !ends(path.last(), depth, rules),
    ensures
        outstanding(path, depth, rules) == join(
            visit(path.last().ply),
            outstanding(opened_path(path), depth, rules),
        ),
{
    let top = path.last();
    let above = path.drop_last();
    let action = top.pending[top.passed() as int];
    let child = top.child(action);
    let moved = top.advance(top.passed() + 1);
    let after = opened_path(path);
    assert(after.last() == child);
    assert(after.drop_last() =~= above.push(moved));
    assert(after.drop_last().last() == moved);
    assert(after.drop_last().drop_last() =~= above);
    let below = settle(child, depth, rules);
    let next = moved.absorb(below.value, seq![child.event()] + below.line);
    assert(next.event() == top.event());
    lemma_settle_counts(child, depth, rules);
    lemma_settle_counts(next, depth, rules);
    let rest = settle(next, depth, rules);
    let tail = finish(above, top.event(), rest.value, rest.line, depth, rules);
    assert(outstanding(after, depth, rules) == join(below, join(rest, tail)));
    assert(outstanding(path, depth, rules) == join(settle(top, depth, rules), tail));
}

} // verus!
