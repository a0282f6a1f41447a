//! The daemon's shared state: the node table and the two flags that steer
//! forwarding.
//!
//! `ServerState` is the executable table. `TableView` is what contracts say
//! of it: every operation of the table is a function on views, and the
//! executable operation is proved to compute that function. The invariants of
//! the table are theorems about those functions.
//!
//! The table owns, for each node, the handles that the caller gave it for
//! the node's inbound and outbound side. It never looks inside them: `R` and
//! `W` are whatever the caller's transport uses.

use crate::chance::{in_unit_interval, is_probability};
use crate::text::{decimal, decimal_string};
use std::collections::HashMap;
use vstd::prelude::*;
use vstd::std_specs::iter::IteratorSpec;

verus! {

broadcast use vstd::std_specs::hash::group_hash_axioms;

/// The table as contracts see it.
#[verifier::ext_equal]
pub struct TableView<R, W> {
    /// Whether CAN packets go to every node but their sender.
    pub can_broadcast: bool,
    /// The chance that a CAN packet is discarded, as a bit pattern.
    pub can_drop_chance: u32,
    /// The id that the next node gets.
    pub allocator: int,
    /// The name of each node. Its keys are the nodes that exist.
    pub names: Map<i32, Seq<char>>,
    /// The inbound handle of each node that has one.
    pub inputs: Map<i32, R>,
    /// The outbound handle of each node that has one.
    pub outputs: Map<i32, W>,
    /// The route list of each node.
    pub routing: Map<i32, Seq<i32>>,
    /// Every id that was ever handed out.
    pub allocated: Set<int>,
}

impl<R, W> TableView<R, W> {
    /// The table of a daemon that has just started.
    pub open spec fn empty() -> Self {
        TableView {
            can_broadcast: false,
            can_drop_chance: 0,
            allocator: 0,
            names: Map::empty(),
            inputs: Map::empty(),
            outputs: Map::empty(),
            routing: Map::empty(),
            allocated: Set::empty(),
        }
    }

    /// Whether `id` is a node of the table.
    pub open spec fn has_node(self, id: i32) -> bool {
        self.names.contains_key(id)
    }

    /// The route list of `id`; empty for an id without one.
    pub open spec fn routes_of(self, id: i32) -> Seq<i32> {
        if self.routing.contains_key(id) {
            self.routing[id]
        } else {
            Seq::empty()
        }
    }

    /// What holds of every table that the operations below build from the
    /// empty one: each node has a name and a route list, and only nodes have
    /// handles; the allocator lies above every node; no route list holds an
    /// id twice; every node's id was handed out by the allocator.
    pub open spec fn wf(self) -> bool {
        &&& self.names.dom() =~= self.routing.dom()
        &&& self.inputs.dom().subset_of(self.names.dom())
        &&& self.outputs.dom().subset_of(self.names.dom())
        &&& i32::MIN <= self.allocator <= i32::MAX
        &&& forall|id: i32| #[trigger] self.names.contains_key(id) ==> id < self.allocator
        &&& forall|id: i32| #[trigger]
            self.routing.contains_key(id) ==> self.routing[id].no_duplicates()
        &&& forall|id: i32| #[trigger]
            self.names.contains_key(id) ==> self.allocated.contains(id as int)
    }

    /// Whether every target of every route list is an id that was handed out
    /// at some time. The node behind it may be gone.
    pub open spec fn routes_known(self) -> bool {
        forall|id: i32, k: int|
            self.routing.contains_key(id) && 0 <= k < self.routing[id].len()
                ==> self.allocated.contains(#[trigger] self.routing[id][k] as int)
    }

    /// Whether the allocator can hand out one more id.
    pub open spec fn has_room(self) -> bool {
        self.allocator < i32::MAX
    }

    /// A new node under the allocator's id, with the given name or the id's
    /// decimal text, with the handles that are given, and with no routes.
    pub open spec fn new_node_raw(
        self,
        name: Option<Seq<char>>,
        input: Option<R>,
        output: Option<W>,
    ) -> Self {
        let n = self.allocator as i32;
        TableView {
            allocator: self.allocator + 1,
            names: self.names.insert(
                n,
                match name {
                    Some(text) => text,
                    None => decimal(n as int),
                },
            ),
            inputs: match input {
                Some(r) => self.inputs.insert(n, r),
                None => self.inputs,
            },
            outputs: match output {
                Some(w) => self.outputs.insert(n, w),
                None => self.outputs,
            },
            routing: self.routing.insert(n, Seq::empty()),
            allocated: self.allocated.insert(self.allocator),
            ..self
        }
    }

    /// A new node that reads and writes.
    pub open spec fn new_node(self, input: R, output: W) -> Self {
        self.new_node_raw(None, Some(input), Some(output))
    }

    /// A new node that only receives.
    pub open spec fn new_sink(self, output: W) -> Self {
        self.new_node_raw(None, None, Some(output))
    }

    /// The table without `id`. The allocator steps back where `id` is the id
    /// it handed out last.
    pub open spec fn delete_node(self, id: i32) -> Self {
        TableView {
            allocator: if id + 1 == self.allocator {
                self.allocator - 1
            } else {
                self.allocator
            },
            names: self.names.remove(id),
            inputs: self.inputs.remove(id),
            outputs: self.outputs.remove(id),
            routing: self.routing.remove(id),
            ..self
        }
    }

    /// The table with `id` renamed, where `id` is a node.
    pub open spec fn rename_node(self, id: i32, name: Seq<char>) -> Self {
        if self.names.contains_key(id) {
            TableView { names: self.names.insert(id, name), ..self }
        } else {
            self
        }
    }

    /// The table with `to` at the end of the route list of `from`, unless
    /// the list holds it already or `from` has no list.
    pub open spec fn add_route(self, from: i32, to: i32) -> Self {
        if self.routing.contains_key(from) && !self.routing[from].contains(to) {
            TableView { routing: self.routing.insert(from, self.routing[from].push(to)), ..self }
        } else {
            self
        }
    }

    /// The table with every `to` taken out of the route list of `from`.
    pub open spec fn del_route(self, from: i32, to: i32) -> Self {
        if self.routing.contains_key(from) {
            TableView {
                routing: self.routing.insert(from, self.routing[from].filter(other_than(to))),
                ..self
            }
        } else {
            self
        }
    }

    pub open spec fn set_can_broadcast(self, broadcast: bool) -> Self {
        TableView { can_broadcast: broadcast, ..self }
    }

    /// The table with the drop chance replaced, where the new one is a
    /// number of `[0, 1]`; the table unchanged where it is not.
    pub open spec fn set_can_drop_chance(self, bits: u32) -> Self {
        if in_unit_interval(bits) {
            TableView { can_drop_chance: bits, ..self }
        } else {
            self
        }
    }

    /// Whether `rows` lists the nodes with their names: each node once, in
    /// any order.
    pub open spec fn listed_by(self, rows: Seq<(i32, Seq<char>)>) -> bool {
        &&& rows.len() == self.names.dom().len()
        &&& forall|k: int|
            0 <= k < rows.len() ==> self.names.contains_key(#[trigger] rows[k].0)
                && self.names[rows[k].0] == rows[k].1
        &&& forall|j: int, k: int| 0 <= j < k < rows.len() ==> rows[j].0 != rows[k].0
        &&& forall|id: i32|
            self.names.contains_key(id) ==> exists|k: int|
                0 <= k < rows.len() && #[trigger] rows[k].0 == id
    }
}

/// The daemon's state.
pub struct ServerState<R, W> {
    can_broadcast: bool,
    can_drop_chance: u32,
    node_allocator: i32,
    node_names: HashMap<i32, String>,
    node_inputs: HashMap<i32, R>,
    node_outputs: HashMap<i32, W>,
    node_routing: HashMap<i32, Vec<i32>>,
    allocated: Ghost<Set<int>>,
}

impl<R, W> View for ServerState<R, W> {
    type V = TableView<R, W>;

    closed spec fn view(&self) -> TableView<R, W> {
        TableView {
            can_broadcast: self.can_broadcast,
            can_drop_chance: self.can_drop_chance,
            allocator: self.node_allocator as int,
            names: self.node_names@.map_values(|name: String| name@),
            inputs: self.node_inputs@,
            outputs: self.node_outputs@,
            routing: self.node_routing@.map_values(|routes: Vec<i32>| routes@),
            allocated: self.allocated@,
        }
    }
}

/// The test that `del_route` keeps a route by: it leads elsewhere than to
/// `to`.
pub open spec fn other_than(to: i32) -> spec_fn(i32) -> bool {
    |x: i32| x != to
}

/// The rows of a listing with their names as sequences.
pub open spec fn rows_text(rows: Seq<(i32, String)>) -> Seq<(i32, Seq<char>)> {
    Seq::new(rows.len(), |k: int| (rows[k].0, rows[k].1@))
}

/// The text of a name that may be missing.
pub open spec fn name_text(name: Option<String>) -> Option<Seq<char>> {
    match name {
        Some(text) => Some(text@),
        None => None,
    }
}

fn holds(routes: &Vec<i32>, target: i32) -> (found: bool)
    ensures
        found == routes@.contains(target),
{
    let mut k: usize = 0;
    while k < routes.len()
        invariant
            k <= routes.len(),
            forall|j: int| 0 <= j < k ==> routes@[j] != target,
        decreases routes.len() - k,
    {
        if routes[k] == target {
            return true;
        }
        k = k + 1;
    }
    false
}

fn without(routes: &Vec<i32>, target: i32) -> (kept: Vec<i32>)
    ensures
        kept@ == routes@.filter(other_than(target)),
{
    let mut kept: Vec<i32> = Vec::new();
    let mut k: usize = 0;
    let ghost keep = other_than(target);
    proof {
        reveal(Seq::filter);
        assert(routes@.subrange(0, 0) =~= Seq::<i32>::empty());
    }
    while k < routes.len()
        invariant
            k <= routes.len(),
            keep == other_than(target),
            kept@ == routes@.subrange(0, k as int).filter(keep),
        decreases routes.len() - k,
    {
        proof {
            reveal(Seq::filter);
            let prefix = routes@.subrange(0, k + 1);
            assert(prefix.drop_last() =~= routes@.subrange(0, k as int));
            assert(prefix.last() == routes@[k as int]);
        }
        if routes[k] != target {
            kept.push(routes[k]);
        }
        k = k + 1;
    }
    assert(routes@.subrange(0, routes.len() as int) =~= routes@);
    kept
}

impl<R, W> ServerState<R, W> {
    /// The state of a daemon that has just started: no node, no broadcast,
    /// nothing dropped.
    pub fn new() -> (state: Self)
        ensures
            state@ == TableView::<R, W>::empty(),
            state@.wf(),
            state@.routes_known(),
    {
        let state = ServerState {
            can_broadcast: false,
            can_drop_chance: 0,
            node_allocator: 0,
            node_names: HashMap::new(),
            node_inputs: HashMap::new(),
            node_outputs: HashMap::new(),
            node_routing: HashMap::new(),
            allocated: Ghost(Set::empty()),
        };
        assert(state@ =~~= TableView::<R, W>::empty());
        state
    }

    pub fn get_can_broadcast(&self) -> (broadcast: bool)
        ensures
            broadcast == self@.can_broadcast,
    {
        self.can_broadcast
    }

    pub fn set_can_broadcast(&mut self, broadcast: bool)
        ensures
            final(self)@ == old(self)@.set_can_broadcast(broadcast),
    {
        self.can_broadcast = broadcast;
    }

    /// The drop chance, as a bit pattern.
    pub fn get_can_drop_chance(&self) -> (bits: u32)
        ensures
            bits == self@.can_drop_chance,
    {
        self.can_drop_chance
    }

    /// Replaces the drop chance where `bits` stands for a number of
    /// `[0, 1]`, and tells whether it did.
    pub fn set_can_drop_chance(&mut self, bits: u32) -> (accepted: bool)
        ensures
            accepted == in_unit_interval(bits),
            final(self)@ == old(self)@.set_can_drop_chance(bits),
    {
        if is_probability(bits) {
            self.can_drop_chance = bits;
            true
        } else {
            false
        }
    }

    /// The id that the next node gets.
    pub fn next_id(&self) -> (id: i32)
        ensures
            id == self@.allocator,
    {
        self.node_allocator
    }

    /// Whether `id` is a node of the table.
    pub fn has_node(&self, id: i32) -> (known: bool)
        ensures
            known == self@.has_node(id),
    {
        self.node_names.contains_key(&id)
    }

    /// Adds a node under the allocator's id.
    pub fn new_node_raw(&mut self, name_op: Option<String>, is_op: Option<R>, os_op: Option<W>) -> (n:
        i32)
        requires
            old(self)@.has_room(),
        ensures
            n == old(self)@.allocator,
            final(self)@ == old(self)@.new_node_raw(name_text(name_op), is_op, os_op),
            old(self)@.wf() ==> final(self)@.wf(),
            old(self)@.wf() && old(self)@.routes_known() ==> final(self)@.routes_known(),
    {
        let ghost before = self@;
        let ghost name_view = name_text(name_op);
        let n = self.node_allocator;
        self.node_allocator = self.node_allocator + 1;
        if let Some(is) = is_op {
            self.node_inputs.insert(n, is);
        }
        match name_op {
            Some(name) => {
                self.node_names.insert(n, name);
            },
            None => {
                self.node_names.insert(n, decimal_string(n));
            },
        }
        if let Some(os) = os_op {
            self.node_outputs.insert(n, os);
        }
        self.node_routing.insert(n, Vec::new());
        self.allocated = Ghost(before.allocated.insert(n as int));
        proof {
            assert(self@ =~~= before.new_node_raw(name_view, is_op, os_op));
            lemma_new_node_keeps_wf(before, name_view, is_op, os_op);
        }
        n
    }

    /// Adds a node that reads through `is` and writes through `os`.
    pub fn new_node(&mut self, is: R, os: W) -> (n: i32)
        requires
            old(self)@.has_room(),
        ensures
            n == old(self)@.allocator,
            final(self)@ == old(self)@.new_node(is, os),
            old(self)@.wf() ==> final(self)@.wf(),
            old(self)@.wf() && old(self)@.routes_known() ==> final(self)@.routes_known(),
    {
        self.new_node_raw(None, Some(is), Some(os))
    }

    /// Adds a node that only receives, through `os`.
    pub fn new_sink(&mut self, os: W) -> (n: i32)
        requires
            old(self)@.has_room(),
        ensures
            n == old(self)@.allocator,
            final(self)@ == old(self)@.new_sink(os),
            old(self)@.wf() ==> final(self)@.wf(),
            old(self)@.wf() && old(self)@.routes_known() ==> final(self)@.routes_known(),
    {
        self.new_node_raw(None, None, Some(os))
    }

    /// Removes `node` with its name, handles and routes.
    pub fn delete_node(&mut self, node: i32)
        ensures
            final(self)@ == old(self)@.delete_node(node),
            old(self)@.wf() ==> final(self)@.wf(),
            old(self)@.routes_known() ==> final(self)@.routes_known(),
    {
        let ghost before = self@;
        if node < i32::MAX && node + 1 == self.node_allocator {
            self.node_allocator = self.node_allocator - 1;
        }
        self.node_inputs.remove(&node);
        self.node_names.remove(&node);
        self.node_outputs.remove(&node);
        self.node_routing.remove(&node);
        proof {
            assert(self@ =~~= before.delete_node(node));
            lemma_delete_keeps_wf(before, node);
        }
    }

    /// Renames `node` where it exists, and tells whether it does.
    pub fn rename_node(&mut self, node: i32, name: String) -> (renamed: bool)
        ensures
            renamed == old(self)@.has_node(node),
            final(self)@ == old(self)@.rename_node(node, name@),
            old(self)@.wf() ==> final(self)@.wf(),
            old(self)@.routes_known() ==> final(self)@.routes_known(),
    {
        let ghost before = self@;
        if self.node_names.contains_key(&node) {
            self.node_names.insert(node, name);
            proof {
                assert(self@ =~~= before.rename_node(node, name@));
                lemma_rename_keeps_wf(before, node, name@);
            }
            true
        } else {
            false
        }
    }

    /// Appends `target` to the route list of `node`, unless the list holds
    /// it already. Does nothing where `node` has no route list. Whether
    /// `target` exists is not asked.
    pub fn add_route(&mut self, node: i32, target: i32)
        ensures
            final(self)@ == old(self)@.add_route(node, target),
            old(self)@.wf() ==> final(self)@.wf(),
            old(self)@.routes_known() && old(self)@.allocated.contains(target as int)
                ==> final(self)@.routes_known(),
    {
        let ghost before = self@;
        match self.node_routing.remove(&node) {
            Some(routes) => {
                let mut routes = routes;
                if !holds(&routes, target) {
                    routes.push(target);
                }
                self.node_routing.insert(node, routes);
            },
            None => {},
        }
        proof {
            assert(self@ =~~= before.add_route(node, target));
            lemma_add_route_keeps_wf(before, node, target);
        }
    }

    /// Takes every `target` out of the route list of `node`.
    pub fn del_route(&mut self, node: i32, target: i32)
        ensures
            final(self)@ == old(self)@.del_route(node, target),
            old(self)@.wf() ==> final(self)@.wf(),
            old(self)@.routes_known() ==> final(self)@.routes_known(),
    {
        let ghost before = self@;
        match self.node_routing.remove(&node) {
            Some(routes) => {
                let kept = without(&routes, target);
                self.node_routing.insert(node, kept);
            },
            None => {},
        }
        proof {
            assert(self@ =~~= before.del_route(node, target));
            lemma_del_route_keeps_wf(before, node, target);
        }
    }

    /// The nodes with their names: each node once, in no particular order.
    pub fn list(&self) -> (rows: Vec<(i32, String)>)
        ensures
            self@.listed_by(rows_text(rows@)),
    {
        let mut rows: Vec<(i32, String)> = Vec::new();
        let ghost all: Seq<(i32, String)> = self.node_names.iter().remaining().unref();
        for pair in it: self.node_names.iter()
            invariant
                rows@.len() == it.index(),
                forall|k: int| 0 <= k < rows@.len() ==> rows@[k] == all[k],
                it.seq().unref() == all,
        {
            let (id, name) = pair;
            rows.push((*id, name.clone()));
        }
        proof {
            assert(rows@ =~= all);
            let listed = rows_text(rows@);
            assert(self@.names.dom() =~= self.node_names@.dom());
            let names = self.node_names@;
            assert(all.to_set() == names.kv_pairs());
            assert(all.no_duplicates());
            assert forall|k: int| 0 <= k < listed.len() implies self@.names.contains_key(
                #[trigger] listed[k].0,
            ) && self@.names[listed[k].0] == listed[k].1 by {
                assert(all.to_set().contains(all[k]));
                assert(names.kv_pairs().contains(all[k]));
            }
            assert forall|j: int, k: int| 0 <= j < k < listed.len() implies listed[j].0
                != listed[k].0 by {
                assert(names.kv_pairs().contains(all[j]));
                assert(names.kv_pairs().contains(all[k]));
                if all[j].0 == all[k].0 {
                    assert(all[j] == all[k]);
                }
            }
            assert forall|id: i32| self@.names.contains_key(id) implies exists|k: int|
                0 <= k < listed.len() && #[trigger] listed[k].0 == id by {
                assert(names.kv_pairs().contains((id, names[id])));
                assert(all.to_set().contains((id, names[id])));
                let k = choose|k: int| 0 <= k < all.len() && all[k] == (id, names[id]);
                assert(listed[k].0 == id);
            }
        }
        rows
    }

    /// The name of `id`, where it is a node.
    pub fn lookup_name(&self, id: i32) -> (name: Option<&String>)
        ensures
            name is Some <==> self@.has_node(id),
            name matches Some(text) ==> text@ == self@.names[id],
    {
        self.node_names.get(&id)
    }

    /// The outbound handle of `id`, where it has one.
    pub fn lookup_writer(&self, id: i32) -> (writer: Option<&W>)
        ensures
            writer is Some <==> self@.outputs.contains_key(id),
            writer matches Some(w) ==> *w == self@.outputs[id],
    {
        self.node_outputs.get(&id)
    }

    /// Whether `id` has an outbound handle.
    pub fn has_writer(&self, id: i32) -> (found: bool)
        ensures
            found == self@.outputs.contains_key(id),
    {
        self.node_outputs.contains_key(&id)
    }

    /// A copy of the route list of `id`; empty where it has none.
    pub fn lookup_routes(&self, id: i32) -> (routes: Vec<i32>)
        ensures
            routes@ == self@.routes_of(id),
    {
        match self.node_routing.get(&id) {
            Some(routes) => routes.clone(),
            None => Vec::new(),
        }
    }

    /// The ids that have an outbound handle: each once, in no particular
    /// order.
    pub fn writers(&self) -> (ids: Vec<i32>)
        ensures
            ids@.no_duplicates(),
            ids@.to_set() == self@.outputs.dom(),
    {
        let mut ids: Vec<i32> = Vec::new();
        let ghost all: Seq<i32> = self.node_outputs.keys().remaining().unref();
        for id in it: self.node_outputs.keys()
            invariant
                ids@.len() == it.index(),
                forall|k: int| 0 <= k < ids@.len() ==> ids@[k] == all[k],
                it.seq().unref() == all,
        {
            ids.push(*id);
        }
        assert(ids@ =~= all);
        ids
    }
}

/// Adding a node keeps the table well formed, and keeps every route target
/// known.
pub proof fn lemma_new_node_keeps_wf<R, W>(
    t: TableView<R, W>,
    name: Option<Seq<char>>,
    input: Option<R>,
    output: Option<W>,
)
    requires
        t.has_room(),
    ensures
        t.wf() ==> t.new_node_raw(name, input, output).wf(),
        t.wf() && t.routes_known() ==> t.new_node_raw(name, input, output).routes_known(),
{
    let after = t.new_node_raw(name, input, output);
    if t.wf() {
        let n = t.allocator as i32;
        assert(after.names.dom() =~= after.routing.dom());
        assert forall|id: i32| #[trigger] after.routing.contains_key(id) implies after.routing[id].no_duplicates() by {
            if id != n {
                assert(t.routing.contains_key(id));
            }
        }
        if t.routes_known() {
            assert forall|id: i32, k: int|
                after.routing.contains_key(id) && 0 <= k < after.routing[id].len()
                implies after.allocated.contains(#[trigger] after.routing[id][k] as int) by {
                if id != n {
                    assert(t.routing.contains_key(id));
                    assert(t.allocated.contains(t.routing[id][k] as int));
                }
            }
        }
    }
}

/// Deleting an id keeps the table well formed, and keeps every route target
/// known.
pub proof fn lemma_delete_keeps_wf<R, W>(t: TableView<R, W>, id: i32)
    ensures
        t.wf() ==> t.delete_node(id).wf(),
        t.routes_known() ==> t.delete_node(id).routes_known(),
{
    let after = t.delete_node(id);
    if t.wf() {
        assert(after.names.dom() =~= after.routing.dom());
        assert forall|other: i32| #[trigger] after.names.contains_key(other) implies other
            < after.allocator by {
            assert(t.names.contains_key(other));
        }
    }
    if t.routes_known() {
        assert forall|node: i32, k: int|
            after.routing.contains_key(node) && 0 <= k < after.routing[node].len()
            implies after.allocated.contains(#[trigger] after.routing[node][k] as int) by {
            assert(t.routing.contains_key(node));
            assert(t.allocated.contains(t.routing[node][k] as int));
        }
    }
}

/// Renaming keeps the table well formed and its routes as they were.
pub proof fn lemma_rename_keeps_wf<R, W>(t: TableView<R, W>, id: i32, name: Seq<char>)
    ensures
        t.wf() ==> t.rename_node(id, name).wf(),
        t.routes_known() ==> t.rename_node(id, name).routes_known(),
        t.rename_node(id, name).routing == t.routing,
{
    let after = t.rename_node(id, name);
    if t.wf() {
        assert(after.names.dom() =~= t.names.dom());
    }
}

/// Adding a route keeps the table well formed; it keeps every route target
/// known where the new target is.
pub proof fn lemma_add_route_keeps_wf<R, W>(t: TableView<R, W>, from: i32, to: i32)
    ensures
        t.wf() ==> t.add_route(from, to).wf(),
        t.routes_known() && t.allocated.contains(to as int) ==> t.add_route(from, to).routes_known(),
{
    let after = t.add_route(from, to);
    if t.routing.contains_key(from) && !t.routing[from].contains(to) {
        let old_list = t.routing[from];
        let new_list = old_list.push(to);
        if t.wf() {
            assert(after.names.dom() =~= after.routing.dom());
            assert(new_list.no_duplicates()) by {
                assert forall|i: int, j: int|
                    0 <= i < new_list.len() && 0 <= j < new_list.len() && i != j
                    implies new_list[i] != new_list[j] by {
                    if i < old_list.len() {
                        assert(old_list.contains(old_list[i]));
                    }
                    if j < old_list.len() {
                        assert(old_list.contains(old_list[j]));
                    }
                }
            }
            assert forall|id: i32| #[trigger] after.routing.contains_key(id) implies after.routing[id].no_duplicates() by {
                if id != from {
                    assert(t.routing.contains_key(id));
                }
            }
        }
        if t.routes_known() && t.allocated.contains(to as int) {
            assert forall|id: i32, k: int|
                after.routing.contains_key(id) && 0 <= k < after.routing[id].len()
                implies after.allocated.contains(#[trigger] after.routing[id][k] as int) by {
                if id != from {
                    assert(t.routing.contains_key(id));
                    assert(t.allocated.contains(t.routing[id][k] as int));
                } else if k < old_list.len() {
                    assert(t.allocated.contains(t.routing[id][k] as int));
                }
            }
        }
    }
}

proof fn lemma_filter_keeps_distinct(s: Seq<i32>, keep: spec_fn(i32) -> bool)
    requires
        s.no_duplicates(),
    ensures
        s.filter(keep).no_duplicates(),
    decreases s.len(),
{
    reveal(Seq::filter);
    if s.len() > 0 {
        let rest = s.drop_last();
        lemma_filter_keeps_distinct(rest, keep);
        if keep(s.last()) {
            let kept = rest.filter(keep);
            if kept.contains(s.last()) {
                rest.lemma_filter_contains_rev(keep, s.last());
                let j = choose|j: int| 0 <= j < rest.len() && rest[j] == s.last();
                assert(s[j] == s[s.len() - 1]);
            }
            assert forall|i: int, j: int|
                0 <= i < kept.push(s.last()).len() && 0 <= j < kept.push(s.last()).len() && i != j
                implies kept.push(s.last())[i] != kept.push(s.last())[j] by {
                if i < kept.len() {
                    assert(kept.contains(kept[i]));
                }
                if j < kept.len() {
                    assert(kept.contains(kept[j]));
                }
            }
        }
    }
}

/// Taking a route out keeps the table well formed and every route target
/// known.
pub proof fn lemma_del_route_keeps_wf<R, W>(t: TableView<R, W>, from: i32, to: i32)
    ensures
        t.wf() ==> t.del_route(from, to).wf(),
        t.routes_known() ==> t.del_route(from, to).routes_known(),
{
    let after = t.del_route(from, to);
    if t.routing.contains_key(from) {
        let keep = other_than(to);
        let old_list = t.routing[from];
        let new_list = old_list.filter(keep);
        if t.wf() {
            assert(after.names.dom() =~= after.routing.dom());
            lemma_filter_keeps_distinct(old_list, keep);
            assert forall|id: i32| #[trigger] after.routing.contains_key(id) implies after.routing[id].no_duplicates() by {
                if id != from {
                    assert(t.routing.contains_key(id));
                }
            }
        }
        if t.routes_known() {
            assert forall|id: i32, k: int|
                after.routing.contains_key(id) && 0 <= k < after.routing[id].len()
                implies after.allocated.contains(#[trigger] after.routing[id][k] as int) by {
                if id != from {
                    assert(t.routing.contains_key(id));
                    assert(t.allocated.contains(t.routing[id][k] as int));
                } else {
                    assert(new_list.contains(new_list[k]));
                    old_list.lemma_filter_contains_rev(keep, new_list[k]);
                    let j = choose|j: int| 0 <= j < old_list.len() && old_list[j] == new_list[k];
                    assert(t.allocated.contains(t.routing[id][j] as int));
                }
            }
        }
    }
}

} // verus!
