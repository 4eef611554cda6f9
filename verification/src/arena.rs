use crate::game_tree::{EventView, Frame, Rules, Tally};
use crate::solver::{Node, NodeView};
use crate::unwinding::{
    closed_path, ending, ending_value, ends, idle, join, lemma_expand_step, lemma_leaf_step,
    lemma_settle_counts, opened_path, outstanding, visit,
};
use vstd::prelude::*;

verus! {

/// The event that leads to a node.
pub open spec fn event_of(node: Node) -> EventView {
    node@.frame(Seq::empty()).event()
}

/// The line of play that begins with the node at `from` and follows the
/// best children from there.
pub open spec fn line_from(nodes: Seq<Node>, from: int) -> Seq<EventView>
    decreases nodes.len() - from,
{
    if from < 0 || from >= nodes.len() {
        Seq::empty()
    } else if nodes[from].best_child is Some && from < nodes[from].best_child.unwrap()
        < nodes.len() {
        seq![event_of(nodes[from])] + line_from(nodes, nodes[from].best_child.unwrap() as int)
    } else {
        seq![event_of(nodes[from])]
    }
}

/// The line of play below a node with the given best child.
pub open spec fn line_of(nodes: Seq<Node>, best: Option<usize>) -> Seq<EventView> {
    match best {
        Some(child) => line_from(nodes, child as int),
        None => Seq::empty(),
    }
}

/// The node at position `at` is in order: it knows its position, it is
/// valid, only the first node has no parent, and its best child comes
/// after it and is not open.
pub open spec fn node_ok(nodes: Seq<Node>, open: Seq<usize>, at: int) -> bool {
    let node = nodes[at];
    &&& node.id == at
    &&& node@.wf()
    &&& (at == 0) == (node.parent_id is None)
    &&& node.best_child matches Some(best) ==> at < best < nodes.len() && !open.contains(best)
}

/// Every node of the tree is in order.
#[verifier::opaque]
pub open spec fn arena_ok(nodes: Seq<Node>, open: Seq<usize>) -> bool {
    &&& nodes.len() > 0
    &&& forall|at: int| 0 <= at < nodes.len() ==> #[trigger] node_ok(nodes, open, at)
}

/// The open nodes form a path from the root: each is the child of the one
/// before it and was made after it.
#[verifier::opaque]
pub open spec fn path_ok(nodes: Seq<Node>, open: Seq<usize>) -> bool {
    &&& open.len() > 0 ==> open[0] == 0
    &&& forall|j: int| 0 <= j < open.len() ==> (#[trigger] open[j]) < nodes.len()
    &&& forall|i: int, j: int| 0 <= i < j < open.len() ==> open[i] < open[j]
    &&& forall|j: int|
        0 < j < open.len() ==> (#[trigger] nodes[open[j] as int]).parent_id == Some(open[j - 1])
}

/// The node at the given position in the middle of its exploration.
pub open spec fn frame_at(nodes: Seq<Node>, at: int) -> Frame {
    nodes[at]@.frame(line_of(nodes, nodes[at].best_child))
}

/// The open nodes in the middle of their exploration.
pub open spec fn frames_of(nodes: Seq<Node>, open: Seq<usize>) -> Seq<Frame> {
    Seq::new(open.len(), |j: int| frame_at(nodes, open[j] as int))
}

/// What is left to do in a search with the given open nodes. When no node
/// is open, nothing is, and the result stands at the root.
#[verifier::opaque]
pub open spec fn ahead(nodes: Seq<Node>, open: Seq<usize>, depth: nat, rules: Rules) -> Tally {
    if open.len() == 0 {
        idle(nodes[0].value.value, line_of(nodes, nodes[0].best_child))
    } else {
        outstanding(frames_of(nodes, open), depth, rules)
    }
}

/// The number of visits that are left in a search with the given open nodes.
pub open spec fn visits_left(nodes: Seq<Node>, open: Seq<usize>, depth: nat, rules: Rules) -> nat {
    ahead(nodes, open, depth, rules).evaluations
}

/// Whether two trees agree on every node of the first that is not open.
pub open spec fn agree_off_path(before: Seq<Node>, after: Seq<Node>, open: Seq<usize>) -> bool {
    &&& before.len() <= after.len()
    &&& forall|at: int|
        0 <= at < before.len() && !open.contains(at as usize) ==> (#[trigger] after[at])@
            == before[at]@ && after[at].best_child == before[at].best_child
}

/// A line of play that begins at a node which is not open is the same in
/// two trees that agree off the path of open nodes.
pub proof fn lemma_line_stable(before: Seq<Node>, after: Seq<Node>, open: Seq<usize>, from: int)
    requires
        arena_ok(before, open),
        agree_off_path(before, after, open),
        0 <= from < before.len(),
        from <= usize::MAX,
        !open.contains(from as usize),
    ensures
        line_from(after, from) == line_from(before, from),
    decreases before.len() - from,
{
    reveal(arena_ok);
    reveal(path_ok);
    reveal(ahead);
    assert(node_ok(before, open, from));
    assert(after[from]@ == before[from]@);
    match before[from].best_child {
        Some(next) => {
            lemma_line_stable(before, after, open, next as int);
        },
        None => {},
    }
}

/// The line of play below a node is the same in two trees that agree off
/// the path of open nodes.
pub proof fn lemma_line_of_stable(before: Seq<Node>, after: Seq<Node>, open: Seq<usize>, at: int)
    requires
        arena_ok(before, open),
        agree_off_path(before, after, open),
        0 <= at < before.len(),
    ensures
        line_of(after, before[at].best_child) == line_of(before, before[at].best_child),
{
    reveal(arena_ok);
    reveal(path_ok);
    reveal(ahead);
    assert(node_ok(before, open, at));
    match before[at].best_child {
        Some(best) => {
            lemma_line_stable(before, after, open, best as int);
        },
        None => {},
    }
}

/// The last of the open nodes is not among the others, and none of them
/// is a node that does not exist yet.
pub proof fn lemma_path_members(nodes: Seq<Node>, open: Seq<usize>)
    requires
        path_ok(nodes, open),
        open.len() > 0,
    ensures
        !open.drop_last().contains(open.last()),
        nodes.len() <= usize::MAX ==> !open.contains(nodes.len() as usize),
        forall|id: usize| open.drop_last().contains(id) ==> open.contains(id),
        forall|id: usize| #[trigger]
            open.contains(id) ==> id == open.last() || open.drop_last().contains(id),
{
    reveal(arena_ok);
    reveal(path_ok);
    reveal(ahead);
    let rest = open.drop_last();
    if rest.contains(open.last()) {
        let j = choose|j: int| 0 <= j < rest.len() && rest[j] == open.last();
        assert(open[j] < open[open.len() - 1]);
    }
    if nodes.len() <= usize::MAX && open.contains(nodes.len() as usize) {
        let j = choose|j: int| 0 <= j < open.len() && open[j] == nodes.len() as usize;
        assert(open[j] < nodes.len());
    }
    assert forall|id: usize| rest.contains(id) implies open.contains(id) by {
        let j = choose|j: int| 0 <= j < rest.len() && rest[j] == id;
        assert(open[j] == id);
    }
    assert forall|id: usize| #[trigger] open.contains(id) implies id == open.last()
        || rest.contains(id) by {
        let j = choose|j: int| 0 <= j < open.len() && open[j] == id;
        if j < open.len() - 1 {
            assert(rest[j] == id);
        }
    }
}

/// The step of the search at which the last open node ends: the node gets
/// its value, and its parent, if it has one, takes the value in. What was
/// left to do before is that visit and what is left afterwards.
pub proof fn lemma_close(
    before: Seq<Node>,
    after: Seq<Node>,
    open: Seq<usize>,
    depth: nat,
    rules: Rules,
)
    requires
        arena_ok(before, open),
        path_ok(before, open),
        open.len() > 0,
        before.len() <= usize::MAX,
        ends(frame_at(before, open.last() as int), depth, rules),
        after.len() == before.len(),
        before[open.last() as int]@.resolved_as(after[open.last() as int]@),
        after[open.last() as int].value.value == ending_value(
            frame_at(before, open.last() as int),
            depth,
            rules,
        ),
        after[open.last() as int].best_child == before[open.last() as int].best_child,
        after[open.last() as int].id == before[open.last() as int].id,
        after[open.last() as int].parent_id == before[open.last() as int].parent_id,
        open.len() == 1 ==> forall|at: int|
            0 <= at < before.len() && at != open.last() ==> after[at] == before[at],
        open.len() > 1 ==> {
            let parent = open[open.len() - 2] as int;
            &&& after[parent]@ == before[parent]@.informed(
                after[open.last() as int].value.value,
                open.last(),
            )
            &&& after[parent].id == before[parent].id
            &&& after[parent].parent_id == before[parent].parent_id
            &&& after[parent].best_child == after[parent]@.best_child
            &&& forall|at: int|
                0 <= at < before.len() && at != open.last() && at != parent ==> after[at]
                    == before[at]
        },
    ensures
        arena_ok(after, open.drop_last()),
        path_ok(after, open.drop_last()),
        ahead(before, open, depth, rules) == join(
            ending(frame_at(before, open.last() as int), depth, rules),
            ahead(after, open.drop_last(), depth, rules),
        ),
{
    reveal(arena_ok);
    reveal(path_ok);
    reveal(ahead);
    let top = open.last() as int;
    let rest = open.drop_last();
    let path = frames_of(before, open);
    let value = ending_value(frame_at(before, top), depth, rules);
    lemma_path_members(before, open);
    lemma_leaf_step(path, depth, rules);
    assert(path.last() == frame_at(before, top));
    assert(node_ok(before, open, top));
    assert(agree_off_path(before, after, open)) by {
        assert forall|at: int|
            0 <= at < before.len() && !open.contains(at as usize) implies (#[trigger] after[at])@
            == before[at]@ && after[at].best_child == before[at].best_child by {
            assert(at != top);
            if open.len() > 1 {
                assert(open[open.len() - 2] != at as usize);
            }
        }
    }
    lemma_line_of_stable(before, after, open, top);
    // The line that begins with the node that ended.
    assert(line_from(after, top) =~= seq![path.last().event()] + path.last().line) by {
        assert(event_of(after[top]) == event_of(before[top]));
    }
    if open.len() > 1 {
        let parent = open[open.len() - 2] as int;
        assert(open[open.len() - 2] < open[open.len() - 1]);
        assert(before[open[open.len() - 1] as int].parent_id == Some(open[open.len() - 2]));
        assert(node_ok(before, open, parent));
        lemma_line_of_stable(before, after, open, parent);
        let closed = closed_path(path, depth, rules);
        let now = frames_of(after, rest);
        assert(now =~= closed) by {
            assert forall|j: int| 0 <= j < now.len() implies now[j] == closed[j] by {
                let at = rest[j] as int;
                assert(at == open[j]);
                if j < now.len() - 1 {
                    assert(open[j] < open[open.len() - 2]);
                    assert(open[j] < open[open.len() - 1]);
                    assert(after[at] == before[at]);
                    lemma_line_of_stable(before, after, open, at);
                    assert(closed[j] == path[j]);
                } else {
                    assert(at == parent);
                    assert(path[open.len() - 2] == frame_at(before, parent));
                }
            }
        }
    }
    assert(arena_ok(after, rest)) by {
        assert forall|at: int| 0 <= at < after.len() implies #[trigger] node_ok(after, rest, at) by {
            assert(node_ok(before, open, at));
            if open.len() > 1 && at == open[open.len() - 2] {
                assert(open[open.len() - 2] < open[open.len() - 1]);
            }
        }
    }
    assert(path_ok(after, rest)) by {
        assert forall|j: int| 0 < j < rest.len() implies (#[trigger] after[rest[j] as int]).parent_id
            == Some(rest[j - 1]) by {
            assert(rest[j] == open[j]);
            assert(rest[j - 1] == open[j - 1]);
            assert(before[open[j] as int].parent_id == Some(open[j - 1]));
            assert(open[j] < open[open.len() - 1]);
        }
        assert forall|j: int| 0 <= j < rest.len() implies (#[trigger] rest[j]) < after.len() by {
            assert(rest[j] == open[j]);
        }
        assert forall|i: int, j: int| 0 <= i < j < rest.len() implies rest[i] < rest[j] by {
            assert(rest[i] == open[i]);
            assert(rest[j] == open[j]);
        }
    }
}

/// The step of the search at which the last open node opens a child: the
/// node moves on in its list of moves, and the child is added to the tree
/// and becomes the last open node. What was left to do before is that visit
/// and what is left afterwards.
pub proof fn lemma_open(
    before: Seq<Node>,
    after: Seq<Node>,
    open: Seq<usize>,
    depth: nat,
    rules: Rules,
)
    requires
        arena_ok(before, open),
        path_ok(before, open),
        open.len() > 0,
        depth <= usize::MAX,
        !ends(frame_at(before, open.last() as int), depth, rules),
        after.len() == before.len() + 1,
        after.len() <= usize::MAX,
        forall|at: int|
            0 <= at < before.len() && at != open.last() ==> after[at] == before[at],
        ({
            let top = open.last() as int;
            let frame = frame_at(before, top);
            &&& after[top]@ == (NodeView {
                pending: before[top]@.pending.skip((frame.passed() + 1) as int),
                ..before[top]@
            })
            &&& after[top].id == before[top].id
            &&& after[top].parent_id == before[top].parent_id
            &&& after[top].best_child == before[top].best_child
            &&& after[before.len() as int]@ == before[top]@.branch(
                before.len() as usize,
                before[top]@.pending[frame.passed() as int],
            )
            &&& after[before.len() as int].id == before.len()
            &&& after[before.len() as int].parent_id == Some(open.last())
            &&& after[before.len() as int].best_child is None
            &&& after[top]@.wf()
            &&& after[before.len() as int]@.wf()
        }),
    ensures
        arena_ok(after, open.push(before.len() as usize)),
        path_ok(after, open.push(before.len() as usize)),
        ahead(before, open, depth, rules) == join(
            visit(frame_at(before, open.last() as int).ply),
            ahead(after, open.push(before.len() as usize), depth, rules),
        ),
{
    reveal(arena_ok);
    reveal(path_ok);
    reveal(ahead);
    let top = open.last() as int;
    let fresh = before.len() as usize;
    let grown = open.push(fresh);
    let path = frames_of(before, open);
    lemma_path_members(before, open);
    lemma_expand_step(path, depth, rules);
    assert(path.last() == frame_at(before, top));
    assert(node_ok(before, open, top));
    assert(agree_off_path(before, after, open)) by {
        assert forall|at: int|
            0 <= at < before.len() && !open.contains(at as usize) implies (#[trigger] after[at])@
            == before[at]@ && after[at].best_child == before[at].best_child by {
            assert(at != top);
        }
    }
    lemma_line_of_stable(before, after, open, top);
    let opened = opened_path(path);
    let now = frames_of(after, grown);
    assert(now =~= opened) by {
        assert forall|j: int| 0 <= j < now.len() implies now[j] == opened[j] by {
            let at = grown[j] as int;
            if j < open.len() - 1 {
                assert(at == open[j]);
                assert(open[j] < open[open.len() - 1]);
                assert(after[at] == before[at]);
                lemma_line_of_stable(before, after, open, at);
                assert(opened[j] == path[j]);
            } else if j == open.len() - 1 {
                assert(at == top);
            } else {
                assert(at == fresh);
                assert(line_of(after, after[at].best_child) =~= Seq::empty());
            }
        }
    }
    assert(arena_ok(after, grown)) by {
        assert forall|at: int| 0 <= at < after.len() implies #[trigger] node_ok(after, grown, at) by {
            if at < before.len() {
                assert(node_ok(before, open, at));
                match after[at].best_child {
                    Some(best) => {
                        if grown.contains(best) {
                            let j = choose|j: int| 0 <= j < grown.len() && grown[j] == best;
                            if j < open.len() {
                                assert(open[j] == best);
                            }
                        }
                    },
                    None => {},
                }
            }
        }
    }
    assert(path_ok(after, grown)) by {
        assert forall|j: int| 0 < j < grown.len() implies (#[trigger] after[grown[j] as int]).parent_id
            == Some(grown[j - 1]) by {
            if j < open.len() {
                assert(before[open[j] as int].parent_id == Some(open[j - 1]));
            }
        }
        assert forall|i: int, j: int| 0 <= i < j < grown.len() implies grown[i] < grown[j] by {
            if j == open.len() {
                assert(open[i] < before.len());
            }
        }
        assert(grown[0] == open[0]);
    }
}

/// The last open node exists and is in order, and so is its parent, which
/// is the open node before it.
pub proof fn lemma_last_open(nodes: Seq<Node>, open: Seq<usize>)
    requires
        arena_ok(nodes, open),
        path_ok(nodes, open),
        open.len() > 0,
    ensures
        open.last() < nodes.len(),
        node_ok(nodes, open, open.last() as int),
        open.len() == 1 ==> open.last() == 0,
        open.len() > 1 ==> {
            &&& open[open.len() - 2] < open.last()
            &&& nodes[open.last() as int].parent_id == Some(open[open.len() - 2])
            &&& node_ok(nodes, open, open[open.len() - 2] as int)
        },
{
    reveal(arena_ok);
    reveal(path_ok);
    assert(open[open.len() - 1] < nodes.len());
    if open.len() > 1 {
        assert(open[open.len() - 2] < open[open.len() - 1]);
        assert(nodes[open[open.len() - 1] as int].parent_id == Some(open[open.len() - 2]));
        assert(open[open.len() - 2] < nodes.len());
    }
}

/// A tree of the root alone, which is open, is in order, and what is left
/// to do in it is the exploration of the root.
pub proof fn lemma_fresh_tree(nodes: Seq<Node>, open: Seq<usize>, depth: nat, rules: Rules)
    requires
        nodes.len() == 1,
        open == seq![0usize],
        nodes[0].id == 0,
        nodes[0].parent_id is None,
        nodes[0].best_child is None,
        nodes[0]@.wf(),
    ensures
        arena_ok(nodes, open),
        path_ok(nodes, open),
        ahead(nodes, open, depth, rules) == join(
            crate::game_tree::settle(nodes[0]@.frame(Seq::empty()), depth, rules),
            idle(
                crate::game_tree::settle(nodes[0]@.frame(Seq::empty()), depth, rules).value,
                crate::game_tree::settle(nodes[0]@.frame(Seq::empty()), depth, rules).line,
            ),
        ),
{
    reveal(arena_ok);
    reveal(path_ok);
    reveal(ahead);
    assert(node_ok(nodes, open, 0));
    assert(frame_at(nodes, 0) == nodes[0]@.frame(Seq::empty()));
    assert(frames_of(nodes, open).last() == frame_at(nodes, 0));
    assert(frames_of(nodes, open).drop_last().len() == 0);
}

/// When no node is open any longer, the result stands at the root.
pub proof fn lemma_all_closed(nodes: Seq<Node>, open: Seq<usize>, depth: nat, rules: Rules)
    requires
        arena_ok(nodes, open),
        open.len() == 0,
    ensures
        arena_ok(nodes, Seq::empty()),
        nodes.len() > 0,
        node_ok(nodes, Seq::empty(), 0),
        ahead(nodes, open, depth, rules) == idle(
            nodes[0].value.value,
            line_of(nodes, nodes[0].best_child),
        ),
{
    reveal(arena_ok);
    reveal(ahead);
    assert(open =~= Seq::empty());
}

/// While a node is open, at least one visit is left.
pub proof fn lemma_visits_left(nodes: Seq<Node>, open: Seq<usize>, depth: nat, rules: Rules)
    requires
        open.len() > 0,
    ensures
        visits_left(nodes, open, depth, rules) >= 1,
{
    reveal(arena_ok);
    reveal(path_ok);
    reveal(ahead);
    lemma_settle_counts(frames_of(nodes, open).last(), depth, rules);
}

} // verus!
