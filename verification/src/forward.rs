//! Where a data packet goes.
//!
//! A CAN packet may be dropped by chance. A CAN packet under broadcast goes
//! to every node that can be written to, but for its sender. Any other
//! packet goes to its explicit target, or else along the sender's routes, and
//! in both cases only to ids that can be written to.

use crate::chance::{drops, is_dropped};
use crate::host::{ServerState, TableView};
use crate::rics::{DataView, RICS_Data, RICS_Data_RICS_DataType};
use vstd::prelude::*;

verus! {

/// The test that a destination passes: the table has an outbound handle for
/// it.
pub open spec fn writable<R, W>(t: TableView<R, W>) -> spec_fn(i32) -> bool {
    |id: i32| t.outputs.contains_key(id)
}

/// The ids that the packet asks for: its target where it names one, else
/// the routes of its sender, else none.
pub open spec fn wanted<R, W>(t: TableView<R, W>, sender: Option<i32>, packet: DataView) -> Seq<
    i32,
> {
    match packet.target {
        Some(target) => seq![target],
        None => match sender {
            Some(node) => t.routes_of(node),
            None => Seq::empty(),
        },
    }
}

/// The ids that a routed packet is delivered to, in order: those it asks
/// for that can be written to.
pub open spec fn routed<R, W>(t: TableView<R, W>, sender: Option<i32>, packet: DataView) -> Seq<
    i32,
> {
    wanted(t, sender, packet).filter(writable(t))
}

/// Whether the packet is dropped under the table's chance and the draw made
/// for it. Only CAN packets are.
pub open spec fn dropped<R, W>(t: TableView<R, W>, packet: DataView, draw: u32) -> bool {
    packet.is_can() && drops(t.can_drop_chance, draw)
}

/// Whether the packet is broadcast.
pub open spec fn broadcasts<R, W>(t: TableView<R, W>, packet: DataView) -> bool {
    t.can_broadcast && packet.is_can()
}

/// Whether `targets` is where the packet goes. A dropped packet goes
/// nowhere. A broadcast packet goes once to each id that can be written to,
/// the sender left out, in no particular order. Any other packet goes to
/// `routed(..)`, in that order.
pub open spec fn reaches<R, W>(
    t: TableView<R, W>,
    sender: Option<i32>,
    packet: DataView,
    draw: u32,
    targets: Seq<i32>,
) -> bool {
    if dropped(t, packet, draw) {
        targets =~= Seq::empty()
    } else if broadcasts(t, packet) {
        &&& targets.no_duplicates()
        &&& forall|id: i32|
            targets.contains(id) <==> t.outputs.contains_key(id) && sender != Some(id)
    } else {
        targets =~= routed(t, sender, packet)
    }
}

/// Whether a draw is needed to decide on the packet: it is a CAN packet and
/// the chance is not zero.
pub fn needs_draw<R, W>(state: &ServerState<R, W>, packet: &RICS_Data) -> (needed: bool)
    ensures
        needed == (packet@.is_can() && crate::chance::is_nonzero(state@.can_drop_chance)),
        !needed ==> forall|draw: u32| !dropped(state@, packet@, draw),
{
    packet.field_type == RICS_Data_RICS_DataType::CAN && state.get_can_drop_chance() & 0x7fff_ffff
        != 0
}

fn keep_writable<R, W>(state: &ServerState<R, W>, ids: &Vec<i32>) -> (kept: Vec<i32>)
    ensures
        kept@ == ids@.filter(writable(state@)),
{
    let mut kept: Vec<i32> = Vec::new();
    let mut k: usize = 0;
    let ghost keep = writable(state@);
    proof {
        reveal(Seq::filter);
        assert(ids@.subrange(0, 0) =~= Seq::<i32>::empty());
    }
    while k < ids.len()
        invariant
            k <= ids.len(),
            keep == writable(state@),
            kept@ == ids@.subrange(0, k as int).filter(keep),
        decreases ids.len() - k,
    {
        proof {
            reveal(Seq::filter);
            let prefix = ids@.subrange(0, k + 1);
            assert(prefix.drop_last() =~= ids@.subrange(0, k as int));
            assert(prefix.last() == ids@[k as int]);
        }
        if state.has_writer(ids[k]) {
            kept.push(ids[k]);
        }
        k = k + 1;
    }
    assert(ids@.subrange(0, ids.len() as int) =~= ids@);
    kept
}

/// Whether `targets` holds just those of `ids` that are not the sender.
spec fn picks(targets: Seq<i32>, ids: Seq<i32>, sender: Option<i32>) -> bool {
    forall|id: i32| targets.contains(id) <==> ids.contains(id) && sender != Some(id)
}

proof fn lemma_picks_one_more(targets: Seq<i32>, ids: Seq<i32>, sender: Option<i32>, id: i32)
    requires
        picks(targets, ids, sender),
        targets.no_duplicates(),
        !ids.contains(id),
    ensures
        sender != Some(id) ==> picks(targets.push(id), ids.push(id), sender) && targets.push(
            id,
        ).no_duplicates(),
        sender == Some(id) ==> picks(targets, ids.push(id), sender),
{
    let more = ids.push(id);
    assert(more[ids.len() as int] == id);
    assert forall|other: i32| ids.contains(other) implies more.contains(other) by {
        let i = choose|i: int| 0 <= i < ids.len() && ids[i] == other;
        assert(more[i] == other);
    }
    assert forall|other: i32| more.contains(other) implies ids.contains(other) || other == id by {
        let i = choose|i: int| 0 <= i < more.len() && more[i] == other;
        if i < ids.len() {
            assert(ids[i] == other);
        }
    }
    if sender != Some(id) {
        let grown = targets.push(id);
        assert(grown[targets.len() as int] == id);
        assert forall|other: i32| targets.contains(other) implies grown.contains(other) by {
            let i = choose|i: int| 0 <= i < targets.len() && targets[i] == other;
            assert(grown[i] == other);
        }
        assert forall|other: i32| grown.contains(other) implies targets.contains(other) || other
            == id by {
            let i = choose|i: int| 0 <= i < grown.len() && grown[i] == other;
            if i < targets.len() {
                assert(targets[i] == other);
            }
        }
        assert(!targets.contains(id));
        assert forall|i: int, j: int|
            0 <= i < grown.len() && 0 <= j < grown.len() && i != j implies grown[i] != grown[j] by {
            if i < targets.len() {
                assert(targets.contains(targets[i]));
            }
            if j < targets.len() {
                assert(targets.contains(targets[j]));
            }
        }
    }
}

fn all_but<R, W>(state: &ServerState<R, W>, sender: Option<i32>) -> (targets: Vec<i32>)
    ensures
        targets@.no_duplicates(),
        forall|id: i32|
            targets@.contains(id) <==> state@.outputs.contains_key(id) && sender != Some(id),
{
    let ids = state.writers();
    let mut targets: Vec<i32> = Vec::new();
    let mut k: usize = 0;
    assert(ids@.subrange(0, 0) =~= Seq::<i32>::empty());
    while k < ids.len()
        invariant
            k <= ids.len(),
            ids@.no_duplicates(),
            targets@.no_duplicates(),
            picks(targets@, ids@.subrange(0, k as int), sender),
        decreases ids.len() - k,
    {
        let id = ids[k];
        let skip = match sender {
            Some(own) => own == id,
            None => false,
        };
        proof {
            let seen = ids@.subrange(0, k as int);
            assert(ids@.subrange(0, k + 1) =~= seen.push(id));
            if seen.contains(id) {
                let j = choose|j: int| 0 <= j < seen.len() && seen[j] == id;
                assert(ids@[j] == ids@[k as int]);
            }
            lemma_picks_one_more(targets@, seen, sender, id);
        }
        if !skip {
            targets.push(id);
        }
        k = k + 1;
    }
    proof {
        assert(ids@.subrange(0, ids.len() as int) =~= ids@);
        assert forall|id: i32|
            targets@.contains(id) <==> state@.outputs.contains_key(id) && sender != Some(
                id,
            ) by {
            assert(ids@.contains(id) <==> ids@.to_set().contains(id));
        }
    }
    targets
}

/// The ids to hand the packet to, given the node that sent it, if one did,
/// and the draw made for it.
pub fn destinations<R, W>(
    state: &ServerState<R, W>,
    sender: Option<i32>,
    packet: &RICS_Data,
    draw: u32,
) -> (targets: Vec<i32>)
    ensures
        reaches(state@, sender, packet@, draw, targets@),
{
    let can = packet.field_type == RICS_Data_RICS_DataType::CAN;
    if can && is_dropped(state.get_can_drop_chance(), draw) {
        return Vec::new();
    }
    if state.get_can_broadcast() && can {
        all_but(state, sender)
    } else {
        let asked: Vec<i32> = match packet.target {
            Some(target) => {
                let mut one: Vec<i32> = Vec::new();
                one.push(target);
                assert(one@ =~= seq![target]);
                one
            },
            None => match sender {
                Some(node) => state.lookup_routes(node),
                None => Vec::new(),
            },
        };
        assert(asked@ =~= wanted(state@, sender, packet@));
        keep_writable(state, &asked)
    }
}

/// Without broadcast, a packet that names no target and whose sender has no
/// routes goes nowhere, whatever the drop chance, a chance of zero
/// included.
pub proof fn lemma_no_route_no_delivery<R, W>(
    t: TableView<R, W>,
    sender: i32,
    packet: DataView,
    draw: u32,
    targets: Seq<i32>,
)
    requires
        !t.can_broadcast,
        packet.target is None,
        t.routes_of(sender).len() == 0,
        reaches(t, Some(sender), packet, draw, targets),
    ensures
        targets.len() == 0,
{
    reveal(Seq::filter);
    assert(wanted(t, Some(sender), packet) =~= Seq::<i32>::empty());
}

/// Under broadcast, a CAN packet that is not dropped goes to exactly the
/// ids that can be written to, other than its sender, whatever its target
/// and whatever the routes; where every node can be written to, those are
/// the nodes other than the sender.
pub proof fn lemma_broadcast_reaches_all_others<R, W>(
    t: TableView<R, W>,
    sender: i32,
    packet: DataView,
    draw: u32,
    targets: Seq<i32>,
)
    requires
        t.can_broadcast,
        packet.is_can(),
        !drops(t.can_drop_chance, draw),
        reaches(t, Some(sender), packet, draw, targets),
    ensures
        targets.no_duplicates(),
        targets.to_set() == t.outputs.dom().remove(sender),
        t.outputs.dom() == t.names.dom() ==> targets.to_set() == t.names.dom().remove(sender),
{
    assert(targets.to_set() =~= t.outputs.dom().remove(sender));
}

/// A packet with an explicit target goes to that target alone where it can
/// be written to, and nowhere where it cannot, unless it is dropped or
/// broadcast.
pub proof fn lemma_target_overrides_routes<R, W>(
    t: TableView<R, W>,
    sender: Option<i32>,
    packet: DataView,
    draw: u32,
    targets: Seq<i32>,
)
    requires
        packet.target is Some,
        !dropped(t, packet, draw),
        !broadcasts(t, packet),
        reaches(t, sender, packet, draw, targets),
    ensures
        targets == if t.outputs.contains_key(packet.target->0) {
            seq![packet.target->0]
        } else {
            Seq::<i32>::empty()
        },
{
    reveal(Seq::filter);
    let one = seq![packet.target->0];
    assert(one.drop_last() =~= Seq::<i32>::empty());
    assert(one.last() == packet.target->0);
    assert(Seq::<i32>::empty().filter(writable(t)) =~= Seq::<i32>::empty());
    assert(one.filter(writable(t)) =~= if t.outputs.contains_key(packet.target->0) {
        seq![packet.target->0]
    } else {
        Seq::<i32>::empty()
    });
}

} // verus!
