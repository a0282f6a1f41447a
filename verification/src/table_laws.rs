//! Theorems about the node table, stated over `TableView`.
//!
//! The executable table computes the functions of `TableView`, so whatever
//! holds of every sequence of those functions holds of every run of the
//! daemon.

use crate::host::{
    lemma_add_route_keeps_wf, lemma_del_route_keeps_wf, lemma_delete_keeps_wf,
    lemma_new_node_keeps_wf, lemma_rename_keeps_wf, other_than, TableView,
};
use vstd::prelude::*;

verus! {

/// One step in the life of a table.
pub enum TableOp<R, W> {
    NewNode(R, W),
    NewSink(W),
    Delete(i32),
    Rename(i32, Seq<char>),
    AddRoute(i32, i32),
    DelRoute(i32, i32),
}

impl<R, W> TableOp<R, W> {
    /// Whether the step brings a node.
    pub open spec fn creates(self) -> bool {
        self is NewNode || self is NewSink
    }

    /// Whether the step brings a node or takes one away.
    pub open spec fn comes_or_goes(self) -> bool {
        self.creates() || self is Delete
    }
}

/// The table after one step.
pub open spec fn step<R, W>(t: TableView<R, W>, op: TableOp<R, W>) -> TableView<R, W> {
    match op {
        TableOp::NewNode(input, output) => t.new_node(input, output),
        TableOp::NewSink(output) => t.new_sink(output),
        TableOp::Delete(id) => t.delete_node(id),
        TableOp::Rename(id, name) => t.rename_node(id, name),
        TableOp::AddRoute(from, to) => t.add_route(from, to),
        TableOp::DelRoute(from, to) => t.del_route(from, to),
    }
}

/// The table after a sequence of steps, first to last.
pub open spec fn run<R, W>(t: TableView<R, W>, ops: Seq<TableOp<R, W>>) -> TableView<R, W>
    decreases ops.len(),
{
    if ops.len() == 0 {
        t
    } else {
        step(run(t, ops.drop_last()), ops.last())
    }
}

/// Whether the allocator has an id left at every step that brings a node.
pub open spec fn fits<R, W>(t: TableView<R, W>, ops: Seq<TableOp<R, W>>) -> bool
    decreases ops.len(),
{
    ops.len() == 0 || (fits(t, ops.drop_last()) && (ops.last().creates() ==> run(
        t,
        ops.drop_last(),
    ).has_room()))
}

/// Whether every route that the steps add leads to an id that had been
/// handed out by then.
pub open spec fn adds_known_targets<R, W>(t: TableView<R, W>, ops: Seq<TableOp<R, W>>) -> bool
    decreases ops.len(),
{
    ops.len() == 0 || (adds_known_targets(t, ops.drop_last()) && (ops.last() matches TableOp::AddRoute(
        _,
        to,
    ) ==> run(t, ops.drop_last()).allocated.contains(to as int)))
}

/// Every step keeps a table well formed.
pub proof fn lemma_step_keeps_wf<R, W>(t: TableView<R, W>, op: TableOp<R, W>)
    requires
        t.wf(),
        op.creates() ==> t.has_room(),
    ensures
        step(t, op).wf(),
        t.routes_known() && (op matches TableOp::AddRoute(_, to) ==> t.allocated.contains(
            to as int,
        )) ==> step(t, op).routes_known(),
{
    match op {
        TableOp::NewNode(input, output) => {
            lemma_new_node_keeps_wf(t, None, Some(input), Some(output));
        },
        TableOp::NewSink(output) => {
            lemma_new_node_keeps_wf(t, None, None, Some(output));
        },
        TableOp::Delete(id) => {
            lemma_delete_keeps_wf(t, id);
        },
        TableOp::Rename(id, name) => {
            lemma_rename_keeps_wf(t, id, name);
        },
        TableOp::AddRoute(from, to) => {
            lemma_add_route_keeps_wf(t, from, to);
        },
        TableOp::DelRoute(from, to) => {
            lemma_del_route_keeps_wf(t, from, to);
        },
    }
}

/// A well-formed table stays well formed through any sequence of steps for
/// which the allocator has ids. Where it also knows every route target and
/// the steps add routes to known ids only, it still knows every route target
/// afterwards.
pub proof fn lemma_run_keeps_wf<R, W>(t: TableView<R, W>, ops: Seq<TableOp<R, W>>)
    requires
        t.wf(),
        fits(t, ops),
    ensures
        run(t, ops).wf(),
        t.routes_known() && adds_known_targets(t, ops) ==> run(t, ops).routes_known(),
    decreases ops.len(),
{
    if ops.len() > 0 {
        lemma_run_keeps_wf(t, ops.drop_last());
        lemma_step_keeps_wf(run(t, ops.drop_last()), ops.last());
    }
}

/// Nodes that come and go add no routes.
pub proof fn lemma_coming_and_going_adds_no_route<R, W>(
    t: TableView<R, W>,
    ops: Seq<TableOp<R, W>>,
)
    requires
        forall|k: int| 0 <= k < ops.len() ==> (#[trigger] ops[k]).comes_or_goes(),
    ensures
        adds_known_targets(t, ops),
    decreases ops.len(),
{
    if ops.len() > 0 {
        let front = ops.drop_last();
        assert forall|k: int| 0 <= k < front.len() implies (#[trigger] front[k]).comes_or_goes() by {
            assert(front[k] == ops[k]);
        }
        lemma_coming_and_going_adds_no_route(t, front);
        assert(ops.last() == ops[ops.len() - 1]);
    }
}

/// After any sequence of nodes coming and going, from the empty table, the
/// table is well formed: every node has its name and its route list, only
/// nodes have handles, the allocator lies strictly above every node, no
/// route list holds an id twice, and every route target is an id that was
/// handed out.
pub proof fn lemma_nodes_come_and_go<R, W>(ops: Seq<TableOp<R, W>>)
    requires
        forall|k: int| 0 <= k < ops.len() ==> (#[trigger] ops[k]).comes_or_goes(),
        fits(TableView::<R, W>::empty(), ops),
    ensures
        run(TableView::<R, W>::empty(), ops).wf(),
        run(TableView::<R, W>::empty(), ops).routes_known(),
{
    let start = TableView::<R, W>::empty();
    assert(start.names.dom() =~= start.routing.dom());
    lemma_coming_and_going_adds_no_route(start, ops);
    lemma_run_keeps_wf(start, ops);
}

/// How often `x` stands in `s`.
pub open spec fn occurrences(s: Seq<i32>, x: i32) -> nat
    decreases s.len(),
{
    if s.len() == 0 {
        0
    } else {
        occurrences(s.drop_last(), x) + if s.last() == x {
            1nat
        } else {
            0nat
        }
    }
}

/// A sequence that does not hold `x` holds it zero times.
pub proof fn lemma_absent_occurs_never(s: Seq<i32>, x: i32)
    requires
        !s.contains(x),
    ensures
        occurrences(s, x) == 0,
    decreases s.len(),
{
    if s.len() > 0 {
        assert(s[s.len() - 1] != x);
        assert forall|k: int| 0 <= k < s.drop_last().len() implies s.drop_last()[k] != x by {
            assert(s[k] != x);
        }
        lemma_absent_occurs_never(s.drop_last(), x);
    }
}

/// A sequence without repetition that holds `x` holds it once.
pub proof fn lemma_distinct_occurs_once(s: Seq<i32>, x: i32)
    requires
        s.no_duplicates(),
        s.contains(x),
    ensures
        occurrences(s, x) == 1,
    decreases s.len(),
{
    let front = s.drop_last();
    if s.last() == x {
        if front.contains(x) {
            let j = choose|j: int| 0 <= j < front.len() && front[j] == x;
            assert(s[j] == s[s.len() - 1]);
        }
        lemma_absent_occurs_never(front, x);
    } else {
        let j = choose|j: int| 0 <= j < s.len() && s[j] == x;
        assert(front[j] == x);
        lemma_distinct_occurs_once(front, x);
    }
}

/// Adding the same route twice is adding it once, and the route list of
/// `a` then holds `b` exactly once.
pub proof fn lemma_add_route_twice<R, W>(t: TableView<R, W>, a: i32, b: i32)
    requires
        t.wf(),
        t.has_node(a),
    ensures
        t.add_route(a, b).add_route(a, b) == t.add_route(a, b),
        occurrences(t.add_route(a, b).add_route(a, b).routes_of(a), b) == 1,
{
    let once = t.add_route(a, b);
    lemma_add_route_keeps_wf(t, a, b);
    assert(t.routing.contains_key(a));
    let list = once.routes_of(a);
    if t.routing[a].contains(b) {
        assert(list == t.routing[a]);
    } else {
        assert(list == t.routing[a].push(b));
        assert(list[list.len() - 1] == b);
    }
    assert(list.contains(b));
    assert(once.add_route(a, b) == once);
    lemma_distinct_occurs_once(list, b);
}

/// A route that is added and then deleted is gone from the route list of
/// `a`, whatever the list held before.
pub proof fn lemma_add_then_del_route<R, W>(t: TableView<R, W>, a: i32, b: i32)
    ensures
        !t.add_route(a, b).del_route(a, b).routes_of(a).contains(b),
        occurrences(t.add_route(a, b).del_route(a, b).routes_of(a), b) == 0,
{
    let added = t.add_route(a, b);
    let after = added.del_route(a, b);
    let list = after.routes_of(a);
    if added.routing.contains_key(a) {
        let keep = other_than(b);
        assert(list == added.routing[a].filter(keep));
        if list.contains(b) {
            let j = choose|j: int| 0 <= j < list.len() && list[j] == b;
            added.routing[a].lemma_filter_pred(keep, j);
        }
    }
    lemma_absent_occurs_never(list, b);
}

/// A step of a table in which nodes are only created, or deleted youngest
/// first.
pub enum Churn<R, W> {
    /// A node comes, with the handles it has.
    Create(Option<R>, Option<W>),
    /// The id that the allocator handed out last is deleted.
    DeleteLatest,
}

pub open spec fn churn_step<R, W>(t: TableView<R, W>, c: Churn<R, W>) -> TableView<R, W> {
    match c {
        Churn::Create(input, output) => t.new_node_raw(None, input, output),
        Churn::DeleteLatest => t.delete_node((t.allocator - 1) as i32),
    }
}

pub open spec fn churn<R, W>(t: TableView<R, W>, steps: Seq<Churn<R, W>>) -> TableView<R, W>
    decreases steps.len(),
{
    if steps.len() == 0 {
        t
    } else {
        churn_step(churn(t, steps.drop_last()), steps.last())
    }
}

/// The number of creations among the steps.
pub open spec fn creations<R, W>(steps: Seq<Churn<R, W>>) -> nat
    decreases steps.len(),
{
    if steps.len() == 0 {
        0
    } else {
        creations(steps.drop_last()) + if steps.last() is Create {
            1nat
        } else {
            0nat
        }
    }
}

/// The number of deletions among the steps.
pub open spec fn deletions<R, W>(steps: Seq<Churn<R, W>>) -> nat
    decreases steps.len(),
{
    if steps.len() == 0 {
        0
    } else {
        deletions(steps.drop_last()) + if steps.last() is DeleteLatest {
            1nat
        } else {
            0nat
        }
    }
}

/// Whether the allocator stays within the ids at every step: below the
/// largest id before a creation, above the smallest before a deletion.
pub open spec fn churn_fits<R, W>(t: TableView<R, W>, steps: Seq<Churn<R, W>>) -> bool
    decreases steps.len(),
{
    steps.len() == 0 || (churn_fits(t, steps.drop_last()) && {
        let before = churn(t, steps.drop_last());
        if steps.last() is Create {
            before.allocator < i32::MAX
        } else {
            i32::MIN < before.allocator <= i32::MAX
        }
    })
}

/// After creations and deletions of the youngest id, in any order, the
/// allocator has moved up by the number of creations less the number of
/// deletions.
pub proof fn lemma_allocator_counts<R, W>(t: TableView<R, W>, steps: Seq<Churn<R, W>>)
    requires
        churn_fits(t, steps),
    ensures
        churn(t, steps).allocator == t.allocator + creations(steps) - deletions(steps),
    decreases steps.len(),
{
    if steps.len() > 0 {
        lemma_allocator_counts(t, steps.drop_last());
    }
}

/// From the empty table, after `N` creations and `K` deletions of the
/// youngest id in any order, the next id is `N - K`.
pub proof fn lemma_next_id_after_churn<R, W>(steps: Seq<Churn<R, W>>)
    requires
        churn_fits(TableView::<R, W>::empty(), steps),
    ensures
        churn(TableView::<R, W>::empty(), steps).allocator == creations(steps) - deletions(steps),
{
    lemma_allocator_counts(TableView::<R, W>::empty(), steps);
}

} // verus!
