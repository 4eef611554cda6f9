use crate::conflict::ConflictView;
use crate::game_tree::{engine_rules, root, settle, Frame, Rules, Tally};
use crate::unwinding::{ends, lemma_passed, lemma_settle_value};
use crate::value::Score;
use vstd::prelude::*;

verus! {

/// The rules of a search without window cuts: a minimizing node still stops
/// once its value is negative.
pub open spec fn reference_rules() -> Rules {
    Rules { window_cuts: false, early_defeat: true }
}

/// The rules of a full minimax traversal: no node stops before all of its
/// moves are tried.
pub open spec fn plain_rules() -> Rules {
    Rules { window_cuts: false, early_defeat: false }
}

/// Whether the early-defeat rule makes no difference to the value of a
/// search of the given depth without window cuts.
pub open spec fn early_defeat_is_inert(state: ConflictView, depth: nat) -> bool {
    settle(root(state), depth, reference_rules()).value == settle(
        root(state),
        depth,
        plain_rules(),
    ).value
}

/// Whether two frames are the same node of the game tree at the same point
/// of its list of moves.
pub open spec fn same_node(pruned: Frame, plain: Frame) -> bool {
    &&& pruned.state == plain.state
    &&& pruned.ply == plain.ply
    &&& pruned.action == plain.action
    &&& pruned.pending == plain.pending
}

/// Whether two frames have the same value and the same line of play.
pub open spec fn agree(pruned: Frame, plain: Frame) -> bool {
    pruned.bound.value == plain.bound.value && pruned.line == plain.line
}

/// Whether two results are the same, or lie on the same side outside the
/// window from `lo` to `hi`.
pub open spec fn consistent(pruned: Tally, plain: Tally, lo: Score, hi: Score) -> bool {
    ||| pruned.value == plain.value && pruned.line == plain.line
    ||| pruned.value.key() <= lo.key() && plain.value.key() <= lo.key()
    ||| pruned.value.key() >= hi.key() && plain.value.key() >= hi.key()
}

/// The larger of two numbers.
pub open spec fn upper(a: int, b: int) -> int {
    if a >= b {
        a
    } else {
        b
    }
}

/// The smaller of two numbers.
pub open spec fn lower(a: int, b: int) -> int {
    if a <= b {
        a
    } else {
        b
    }
}

/// How a node in a search with window cuts stands to the same node in a
/// search without them, where the node was made with the window from `lo`
/// to `hi`. The two have the same value and line, or values on the same
/// side outside the window.
pub open spec fn related(pruned: Frame, plain: Frame, lo: Score, hi: Score, depth: nat) -> bool {
    let mine = pruned.bound.value;
    let theirs = plain.bound.value;
    let outside = mine.finite() && theirs.finite();
    &&& same_node(pruned, plain)
    &&& pruned.wf()
    &&& plain.wf()
    &&& lo.key() < hi.key()
    &&& hi.key() >= 0
    &&& pruned.ply >= depth ==> agree(pruned, plain) && !mine.finite()
    &&& if pruned.maximizing() {
        &&& pruned.bound.beta.key() == hi.key()
        &&& {
            ||| agree(pruned, plain) && pruned.bound.alpha.key() == upper(lo.key(), mine.key())
            ||| outside && mine.key() <= lo.key() && theirs.key() <= lo.key()
                && pruned.bound.alpha.key() == lo.key()
            ||| outside && mine.key() >= hi.key() && theirs.key() >= hi.key()
        }
    } else {
        &&& pruned.bound.alpha.key() == lo.key()
        &&& {
            ||| agree(pruned, plain) && pruned.bound.beta.key() == lower(hi.key(), mine.key())
            ||| outside && mine.key() >= hi.key() && theirs.key() >= hi.key()
                && pruned.bound.beta.key() == hi.key()
            ||| outside && mine.key() <= lo.key() && theirs.key() <= lo.key()
        }
    }
}

/// The node after it has opened its next child and taken the child's result in.
pub open spec fn taken_in(frame: Frame, below: Tally) -> Frame {
    let action = frame.pending[frame.passed() as int];
    frame.advance(frame.passed() + 1).absorb(
        below.value,
        seq![frame.child(action).event()] + below.line,
    )
}

/// Without window cuts the value of a node above the depth limit only gets
/// better for the side that acts: a maximizing node ends with a value that
/// is at least its present one, a minimizing node with one that is at most
/// its present one.
pub proof fn lemma_reference_monotone(frame: Frame, depth: nat)
    requires
        frame.wf(),
        frame.ply < depth,
        frame.bound.value.finite(),
    ensures
        settle(frame, depth, reference_rules()).value.finite(),
        frame.maximizing() ==> settle(frame, depth, reference_rules()).value.key()
            >= frame.bound.value.key(),
        !frame.maximizing() ==> settle(frame, depth, reference_rules()).value.key()
            <= frame.bound.value.key(),
    decreases depth - frame.ply, frame.pending.len(),
{
    let rules = reference_rules();
    if !ends(frame, depth, rules) {
        let action = frame.pending[frame.passed() as int];
        lemma_passed(frame);
        let child = frame.child(action);
        frame.state.lemma_after_keeps_wf(action, frame.maximizing());
        lemma_settle_value(child, depth, rules);
        let below = settle(child, depth, rules);
        let next = taken_in(frame, below);
        lemma_reference_monotone(next, depth);
    }
}

/// A maximizing node that takes in the consistent results of its next
/// child stays related to its counterpart.
proof fn lemma_step_max(
    pruned: Frame,
    plain: Frame,
    lo: Score,
    hi: Score,
    depth: nat,
    mine: Tally,
    theirs: Tally,
)
    requires
        related(pruned, plain, lo, hi, depth),
        pruned.maximizing(),
        !ends(pruned, depth, engine_rules()),
        mine.value.finite(),
        theirs.value.finite(),
        consistent(mine, theirs, pruned.bound.alpha, pruned.bound.beta),
    ensures
        related(taken_in(pruned, mine), taken_in(plain, theirs), lo, hi, depth),
{
    let next = taken_in(pruned, mine);
    let other = taken_in(plain, theirs);
    assert(plain.passed() == pruned.passed());
    assert(same_node(next, other));
    assert(next.maximizing());
}

/// A minimizing node that takes in the consistent results of its next
/// child stays related to its counterpart.
proof fn lemma_step_min(
    pruned: Frame,
    plain: Frame,
    lo: Score,
    hi: Score,
    depth: nat,
    mine: Tally,
    theirs: Tally,
)
    requires
        related(pruned, plain, lo, hi, depth),
        !pruned.maximizing(),
        !ends(pruned, depth, engine_rules()),
        mine.value.finite(),
        theirs.value.finite(),
        consistent(mine, theirs, pruned.bound.alpha, pruned.bound.beta),
    ensures
        related(taken_in(pruned, mine), taken_in(plain, theirs), lo, hi, depth),
{
    let next = taken_in(pruned, mine);
    let other = taken_in(plain, theirs);
    assert(plain.passed() == pruned.passed());
    assert(same_node(next, other));
    assert(!next.maximizing());
}

/// The child that a node opens next is related to its counterpart by the
/// node's present window.
proof fn lemma_child_related(pruned: Frame, plain: Frame, lo: Score, hi: Score, depth: nat)
    requires
        related(pruned, plain, lo, hi, depth),
        !ends(pruned, depth, engine_rules()),
    ensures
        !ends(plain, depth, reference_rules()),
        plain.passed() == pruned.passed(),
        ({
            let action = pruned.pending[pruned.passed() as int];
            related(
                pruned.child(action),
                plain.child(action),
                pruned.bound.alpha,
                pruned.bound.beta,
                depth,
            )
        }),
{
    let action = pruned.pending[pruned.passed() as int];
    lemma_passed(pruned);
    pruned.state.lemma_after_keeps_wf(action, pruned.maximizing());
    assert(plain.passed() == pruned.passed());
    assert(plain.exhausted() == pruned.exhausted());
}

/// The window cuts change the result of a node's exploration only where
/// that result lies outside the window with which the node was made, and
/// then both results lie on the same side of it.
pub proof fn lemma_window(pruned: Frame, plain: Frame, lo: Score, hi: Score, depth: nat)
    requires
        related(pruned, plain, lo, hi, depth),
    ensures
        consistent(
            settle(pruned, depth, engine_rules()),
            settle(plain, depth, reference_rules()),
            lo,
            hi,
        ),
    decreases depth - pruned.ply, pruned.pending.len(),
{
    let engine = engine_rules();
    let reference = reference_rules();
    if pruned.stops(engine) {
        if plain.ply < depth && plain.bound.value.finite() {
            lemma_reference_monotone(plain, depth);
        }
    } else if pruned.ply >= depth {
    } else if pruned.exhausted() {
        assert(plain.exhausted());
    } else {
        lemma_child_related(pruned, plain, lo, hi, depth);
        let action = pruned.pending[pruned.passed() as int];
        let child = pruned.child(action);
        let twin = plain.child(action);
        lemma_window(child, twin, pruned.bound.alpha, pruned.bound.beta, depth);
        lemma_settle_value(child, depth, engine);
        lemma_settle_value(twin, depth, reference);
        let mine = settle(child, depth, engine);
        let theirs = settle(twin, depth, reference);
        if pruned.maximizing() {
            lemma_step_max(pruned, plain, lo, hi, depth, mine, theirs);
        } else {
            lemma_step_min(pruned, plain, lo, hi, depth, mine, theirs);
        }
        lemma_window(taken_in(pruned, mine), taken_in(plain, theirs), lo, hi, depth);
    }
}

/// The window cuts never change the decision, only the cost: a search of
/// any depth ends with the same value and the same line of play as the same
/// traversal without window cuts.
pub proof fn law_window_cuts_keep_the_result(state: ConflictView, depth: nat)
    requires
        state.wf(),
    ensures
        settle(root(state), depth, engine_rules()).value == settle(
            root(state),
            depth,
            reference_rules(),
        ).value,
        settle(root(state), depth, engine_rules()).line == settle(
            root(state),
            depth,
            reference_rules(),
        ).line,
{
    let start = root(state);
    lemma_window(start, start, Score::NegInfinity, Score::Infinity, depth);
    lemma_settle_value(start, depth, engine_rules());
    lemma_settle_value(start, depth, reference_rules());
}

/// Wherever the early-defeat rule makes no difference to a traversal
/// without window cuts, a search ends with the value of the full minimax
/// traversal of the same tree.
pub proof fn law_pruning_matches_full_minimax(state: ConflictView, depth: nat)
    requires
        state.wf(),
        early_defeat_is_inert(state, depth),
    ensures
        settle(root(state), depth, engine_rules()).value == settle(
            root(state),
            depth,
            plain_rules(),
        ).value,
{
    law_window_cuts_keep_the_result(state, depth);
}

} // verus!
