//! The client's side of a connection to the daemon.
//!
//! `RICSServer` is what a client knows of its daemon: the node it is, the
//! names it was told, and the bytes it has still to send. Sending queues a
//! frame; whoever owns the socket takes the queue and writes it. Where the
//! daemon answers, the answer that was read is handed in, `None` where none
//! came in time or where it could not be read.

use crate::codec::{
    connection_bytes, data_bytes, data_of, decode_response, encode_connection, encode_request,
    lemma_data_round_trip, request_bytes, response_of,
};
use crate::rics::{
    DataView, IdView, RICS_Connection, RICS_Data, RICS_Data_RICS_DataType, RICS_Request,
    RICS_Request_RICS_Query, RICS_Response, RICS_Route, RequestView, ResponseView,
};
use crate::text::{decimal, parse_decimal, parse_i32, push_decimal};
use crate::wire::{frame, put_frame};
use std::collections::HashMap;
use vstd::prelude::*;
use vstd::std_specs::iter::IteratorSpec;

verus! {

broadcast use vstd::std_specs::hash::group_hash_axioms;

/// Where the daemon is to be found.
#[derive(Debug, PartialEq, Eq)]
pub enum ConnectTo {
    /// At the daemon's default endpoint.
    Default,
    /// At a Unix domain socket, by its path.
    Unix(String),
    /// At a TCP address, as `host:port`.
    Tcp(String),
}

/// The names that a listing gives: each row names its id, and a later row
/// overrides an earlier one with the same id.
pub open spec fn names_of(rows: Seq<IdView>) -> Map<i32, Seq<char>>
    decreases rows.len(),
{
    if rows.len() == 0 {
        Map::empty()
    } else {
        names_of(rows.drop_last()).insert(rows.last().id, rows.last().name)
    }
}

/// The names that an answer to `LIST_SINK` gives: none where no answer came
/// or where the answer is no listing.
pub open spec fn names_told(reply: Option<RICS_Response>) -> Map<i32, Seq<char>> {
    match reply {
        Some(response) => names_of(response@.rows()),
        None => Map::empty(),
    }
}

/// The node that an answer to `WHO_AM_I` names: none where no answer came,
/// where it could not be read, or where it names no node.
pub open spec fn node_told(reply: Option<RICS_Response>) -> Option<i32> {
    match reply {
        Some(RICS_Response::Node(node)) => Some(node),
        _ => None,
    }
}

/// Whether an answer to `LIST_SINK` is a listing.
pub open spec fn is_listing(reply: Option<RICS_Response>) -> bool {
    reply matches Some(RICS_Response::IdList(_))
}

/// What a client knows, as contracts see it.
#[verifier::ext_equal]
pub struct ClientView {
    /// The bytes that are queued for the socket.
    pub outbox: Seq<u8>,
    /// The names of the nodes, as the daemon last listed them.
    pub names: Map<i32, Seq<char>>,
    /// The client's own node, as the daemon last told it.
    pub node: i32,
}

impl ClientView {
    /// The client with one more request queued.
    pub open spec fn sent(self, request: RequestView) -> ClientView {
        ClientView { outbox: self.outbox + frame(request_bytes(request)), ..self }
    }

    /// Whether `id` is a node named `name`.
    pub open spec fn is_named(self, id: i32, name: Seq<char>) -> bool {
        self.names.contains_key(id) && self.names[id] == name
    }

    /// Whether `found` is what looking for `name` may give: a node of that
    /// name, or nothing where no node has it.
    pub open spec fn finds(self, name: Seq<char>, found: Option<i32>) -> bool {
        match found {
            Some(id) => self.is_named(id, name),
            None => forall|id: i32| !self.is_named(id, name),
        }
    }

    /// Whether `found` is what `text` may stand for: the number it writes,
    /// or else a node it names.
    pub open spec fn reads(self, text: Seq<char>, found: Option<i32>) -> bool {
        match parse_i32(text) {
            Some(id) => found == Some(id),
            None => self.finds(text, found),
        }
    }
}

/// A client's knowledge of its daemon.
pub struct RICSServer {
    outbox: Vec<u8>,
    node_names: HashMap<i32, String>,
    node: i32,
}

impl View for RICSServer {
    type V = ClientView;

    closed spec fn view(&self) -> ClientView {
        ClientView {
            outbox: self.outbox@,
            names: self.node_names@.map_values(|name: String| name@),
            node: self.node,
        }
    }
}

/// Something that stands for a node: an id, or a text that writes an id or
/// names a node.
pub trait NodeName {
    /// Whether the daemon is asked for its nodes before this is resolved.
    spec fn asks(&self) -> bool;

    /// Whether `found` is what this may resolve to, among the given names.
    spec fn resolves(&self, client: ClientView, found: Option<i32>) -> bool;

    /// Tells whether `get_name` takes in a listing.
    fn needs_listing(&self) -> (needed: bool)
        ensures
            needed == self.asks(),
    ;

    /// Resolves this. Where it asks for the nodes, the daemon's answer to
    /// `LIST_SINK` is taken in first and kept by the client; where it does
    /// not, the answer is not looked at and the client keeps what it had.
    fn get_name(&self, svr: &mut RICSServer, listing: Option<RICS_Response>) -> (found: Option<i32>)
        ensures
            final(svr)@ == if self.asks() {
                ClientView { names: names_told(listing), ..old(svr)@ }
            } else {
                old(svr)@
            },
            self.resolves(final(svr)@, found),
    ;

    /// Resolves this against the names that the client keeps.
    fn get_name_cached(&self, svr: &RICSServer) -> (found: Option<i32>)
        ensures
            self.resolves(svr@, found),
    ;
}

impl NodeName for String {
    /// A text asks for the nodes unless it writes a number.
    open spec fn asks(&self) -> bool {
        parse_i32(self@) is None
    }

    /// A text stands for the number it writes, or else for a node it
    /// names.
    open spec fn resolves(&self, client: ClientView, found: Option<i32>) -> bool {
        client.reads(self@, found)
    }

    fn needs_listing(&self) -> (needed: bool) {
        RICSServer::needs_listing(self.as_str())
    }

    fn get_name(&self, svr: &mut RICSServer, listing: Option<RICS_Response>) -> (found: Option<
        i32,
    >) {
        svr.node_from_string(self.as_str(), listing)
    }

    fn get_name_cached(&self, svr: &RICSServer) -> (found: Option<i32>) {
        svr.node_from_string_cached(self.as_str())
    }
}

impl NodeName for i32 {
    open spec fn asks(&self) -> bool {
        false
    }

    open spec fn resolves(&self, client: ClientView, found: Option<i32>) -> bool {
        found == Some(*self)
    }

    fn needs_listing(&self) -> (needed: bool) {
        false
    }

    fn get_name(&self, svr: &mut RICSServer, listing: Option<RICS_Response>) -> (found: Option<
        i32,
    >) {
        Some(*self)
    }

    fn get_name_cached(&self, svr: &RICSServer) -> (found: Option<i32>) {
        Some(*self)
    }
}

impl RICSServer {
    /// A client that knows nothing yet and has nothing to send.
    pub fn new() -> (svr: RICSServer)
        ensures
            svr@ == (ClientView { outbox: Seq::empty(), names: Map::empty(), node: 0 }),
    {
        let svr = RICSServer { outbox: Vec::new(), node_names: HashMap::new(), node: 0 };
        assert(svr@ =~~= (ClientView { outbox: Seq::empty(), names: Map::empty(), node: 0 }));
        svr
    }

    /// Hands out the bytes that are queued for the socket, and empties the
    /// queue.
    pub fn take_outbox(&mut self) -> (bytes: Vec<u8>)
        ensures
            bytes@ == old(self)@.outbox,
            final(self)@ == (ClientView { outbox: Seq::empty(), ..old(self)@ }),
    {
        let mut bytes: Vec<u8> = Vec::new();
        std::mem::swap(&mut bytes, &mut self.outbox);
        bytes
    }

    /// The client's own node, as the daemon last told it.
    pub fn node(&self) -> (node: i32)
        ensures
            node == self@.node,
    {
        self.node
    }

    /// The name that the client keeps for `id`.
    pub fn name_of(&self, id: i32) -> (name: Option<&String>)
        ensures
            name is Some <==> self@.names.contains_key(id),
            name matches Some(text) ==> text@ == self@.names[id],
    {
        self.node_names.get(&id)
    }

    /// Queues the first message of a connection.
    pub fn connect(&mut self, as_node: bool)
        ensures
            final(self)@ == (ClientView {
                outbox: old(self)@.outbox + frame(
                    connection_bytes(RICS_Connection { connect_as_node: as_node }),
                ),
                ..old(self)@
            }),
    {
        let msg = RICS_Connection { connect_as_node: as_node };
        let bytes = encode_connection(&msg);
        put_frame(&mut self.outbox, bytes.as_slice());
    }

    /// Queues a request.
    pub fn send_request(&mut self, msg: RICS_Request)
        ensures
            final(self)@ == old(self)@.sent(msg@),
    {
        let bytes = encode_request(&msg);
        put_frame(&mut self.outbox, bytes.as_slice());
    }

    /// Queues a query.
    pub fn send_query(&mut self, query: RICS_Request_RICS_Query)
        ensures
            final(self)@ == old(self)@.sent(RequestView::Query(query)),
    {
        self.send_request(RICS_Request::Query(query));
    }

    /// Takes in the daemon's answer to `WHO_AM_I`. The node that it names
    /// becomes the client's own and is handed back. Where no answer came,
    /// where it could not be read, or where it names no node, nothing is
    /// handed back and the client's own node stays what it was.
    pub fn who_am_i(&mut self, reply: Option<RICS_Response>) -> (node: Option<i32>)
        ensures
            node == node_told(reply),
            final(self)@ == match node {
                Some(n) => ClientView { node: n, ..old(self)@ },
                None => old(self)@,
            },
    {
        match reply {
            Some(RICS_Response::Node(node)) => {
                self.node = node;
                Some(node)
            },
            _ => None,
        }
    }

    /// Queues the new drop chance of CAN packets, as the bit pattern of a
    /// single-precision number: at zero every packet is forwarded, at one
    /// none is.
    pub fn set_can_drop_chance(&mut self, bits: u32)
        ensures
            final(self)@ == old(self)@.sent(RequestView::CanDropChance(bits)),
    {
        self.send_request(RICS_Request::CanDropChance(bits));
    }

    /// Queues the new state of the broadcast flag. The daemon sends no
    /// confirmation.
    pub fn set_can_broadcast(&mut self, v: bool)
        ensures
            final(self)@ == old(self)@.sent(
                RequestView::Query(
                    if v {
                        RICS_Request_RICS_Query::SET_FLAG_CAN_BROADCAST
                    } else {
                        RICS_Request_RICS_Query::CLEAR_FLAG_CAN_BROADCAST
                    },
                ),
            ),
    {
        let query = if v {
            RICS_Request_RICS_Query::SET_FLAG_CAN_BROADCAST
        } else {
            RICS_Request_RICS_Query::CLEAR_FLAG_CAN_BROADCAST
        };
        self.send_request(RICS_Request::Query(query));
    }

    /// Takes in the daemon's answer to `LIST_SINK`, and tells whether it
    /// is a listing. The names that it lists replace the ones that the
    /// client kept. Where no answer came, where it could not be read, or
    /// where it is no listing, the client keeps no name: a name that is
    /// looked up after a listing failed is not found.
    pub fn list_nodes(&mut self, reply: Option<RICS_Response>) -> (listed: bool)
        ensures
            listed == is_listing(reply),
            final(self)@ == (ClientView { names: names_told(reply), ..old(self)@ }),
    {
        let mut names: HashMap<i32, String> = HashMap::new();
        let listed = match &reply {
            Some(RICS_Response::IdList(_)) => true,
            _ => false,
        };
        match reply {
            Some(RICS_Response::IdList(list)) => {
                let mut k: usize = 0;
                let ghost rows = list@;
                assert(rows.subrange(0, 0) =~= Seq::<IdView>::empty());
                assert(names@.map_values(|name: String| name@) =~= names_of(
                    rows.subrange(0, 0),
                ));
                while k < list.ids.len()
                    invariant
                        k <= list.ids.len(),
                        rows == list@,
                        rows.len() == list.ids.len(),
                        names@.map_values(|name: String| name@) == names_of(
                            rows.subrange(0, k as int),
                        ),
                    decreases list.ids.len() - k,
                {
                    let id = list.ids[k].id;
                    let name = list.ids[k].name.clone();
                    proof {
                        let next = rows.subrange(0, k + 1);
                        assert(next.drop_last() =~= rows.subrange(0, k as int));
                        assert(next.last() == rows[k as int]);
                        assert(names@.insert(id, name).map_values(|name: String| name@)
                            =~= names@.map_values(|name: String| name@).insert(id, name@));
                    }
                    names.insert(id, name);
                    k = k + 1;
                }
                assert(rows.subrange(0, k as int) =~= rows);
            },
            _ => {
                assert(names@.map_values(|name: String| name@) =~= Map::<
                    i32,
                    Seq<char>,
                >::empty());
            },
        }
        self.node_names = names;
        assert(self@ =~~= (ClientView { names: names_told(reply), ..old(self)@ }));
        listed
    }

    /// Whether the daemon is asked for its nodes before `text` is resolved:
    /// it is unless `text` writes a number.
    pub fn needs_listing(text: &str) -> (needed: bool)
        ensures
            needed == (parse_i32(text@) is None),
    {
        parse_decimal(text).is_none()
    }

    /// The node that `text` stands for, among the names that the client
    /// keeps: the number that it writes, or else a node that it names.
    pub fn node_from_string_cached(&self, text: &str) -> (found: Option<i32>)
        ensures
            self@.reads(text@, found),
    {
        match parse_decimal(text) {
            Some(id) => Some(id),
            None => self.first_named(text),
        }
    }

    /// The node that `text` stands for. Where `text` writes no number, the
    /// daemon's answer to `LIST_SINK` is taken in first.
    pub fn node_from_string(&mut self, text: &str, listing: Option<RICS_Response>) -> (found:
        Option<i32>)
        ensures
            final(self)@ == if parse_i32(text@) is None {
                ClientView { names: names_told(listing), ..old(self)@ }
            } else {
                old(self)@
            },
            final(self)@.reads(text@, found),
    {
        match parse_decimal(text) {
            Some(id) => Some(id),
            None => {
                let _ = self.list_nodes(listing);
                self.first_named(text)
            },
        }
    }

    /// A node of the given name, among the names that the client keeps.
    pub fn first_named(&self, name: &str) -> (found: Option<i32>)
        ensures
            self@.finds(name@, found),
    {
        let ghost all: Seq<(i32, String)> = self.node_names.iter().remaining().unref();
        let ghost mut seen: int = 0;
        let wanted: String = name.to_owned();
        for pair in it: self.node_names.iter()
            invariant
                seen == it.index(),
                it.seq().unref() == all,
                wanted@ == name@,
                forall|k: int| 0 <= k < seen ==> (#[trigger] all[k]).1@ != name@,
        {
            let (id, held) = pair;
            if held.eq(&wanted) {
                proof {
                    assert(all.to_set().contains(all[seen]));
                    assert(self.node_names@.kv_pairs().contains(all[seen]));
                }
                return Some(*id);
            }
            proof {
                seen = seen + 1;
            }
        }
        proof {
            assert forall|id: i32| !self@.is_named(id, name@) by {
                if self@.is_named(id, name@) {
                    let pair = (id, self.node_names@[id]);
                    assert(self.node_names@.kv_pairs().contains(pair));
                    assert(all.to_set().contains(pair));
                    let k = choose|k: int| 0 <= k < all.len() && all[k] == pair;
                    assert(all[k].1@ != name@);
                }
            }
        }
        None
    }

    /// The nodes of the given name, among the names that the client keeps:
    /// each once, in no particular order.
    pub fn node_from_name_cached(&self, name: &str) -> (ids: Vec<i32>)
        ensures
            ids@.no_duplicates(),
            forall|id: i32| ids@.contains(id) <==> self@.is_named(id, name@),
    {
        let mut ids: Vec<i32> = Vec::new();
        let ghost all: Seq<(i32, String)> = self.node_names.iter().remaining().unref();
        let ghost mut seen: int = 0;
        let wanted: String = name.to_owned();
        for pair in it: self.node_names.iter()
            invariant
                seen == it.index(),
                0 <= seen <= all.len(),
                wanted@ == name@,
                it.seq().unref() == all,
                it.seq().no_duplicates(),
                all.to_set() == self.node_names@.kv_pairs(),
                picked(ids@, all.subrange(0, seen), name@),
        {
            let (id, held) = pair;
            let matches = held.eq(&wanted);
            proof {
                assert(all.no_duplicates()) by {
                    assert forall|i: int, j: int|
                        0 <= i < all.len() && 0 <= j < all.len() && i != j implies all[i]
                        != all[j] by {
                        assert(it.seq()[i] != it.seq()[j]);
                    }
                }
                lemma_pairs_have_distinct_keys(self.node_names@, all);
                assert(all.subrange(0, seen + 1) =~= all.subrange(0, seen).push(all[seen]));
                assert forall|j: int| 0 <= j < seen implies (#[trigger] all.subrange(0, seen)[j]).0
                    != all[seen].0 by {
                    assert(all.subrange(0, seen)[j] == all[j]);
                }
                lemma_picked_one_more(ids@, all.subrange(0, seen), name@, all[seen]);
            }
            if matches {
                ids.push(*id);
            }
            proof {
                seen = seen + 1;
            }
        }
        proof {
            assert(all.subrange(0, seen) =~= all);
            assert forall|id: i32| ids@.contains(id) <==> self@.is_named(id, name@) by {
                if ids@.contains(id) {
                    let j = choose|j: int| 0 <= j < all.len() && all[j].0 == id && all[j].1@ == name@;
                    assert(all.to_set().contains(all[j]));
                    assert(self.node_names@.kv_pairs().contains(all[j]));
                }
                if self@.is_named(id, name@) {
                    let pair = (id, self.node_names@[id]);
                    assert(self.node_names@.kv_pairs().contains(pair));
                    assert(all.to_set().contains(pair));
                    let k = choose|k: int| 0 <= k < all.len() && all[k] == pair;
                    assert(all[k].0 == id && all[k].1@ == name@);
                }
            }
        }
        ids
    }

    /// The nodes of the given name, after the daemon's answer to
    /// `LIST_SINK` is taken in.
    pub fn node_from_name(&mut self, name: &str, listing: Option<RICS_Response>) -> (ids: Vec<i32>)
        ensures
            final(self)@ == (ClientView { names: names_told(listing), ..old(self)@ }),
            ids@.no_duplicates(),
            forall|id: i32| ids@.contains(id) <==> final(self)@.is_named(id, name@),
    {
        let _ = self.list_nodes(listing);
        self.node_from_name_cached(name)
    }

    /// Asks the daemon to delete the route between two nodes. Nothing is
    /// queued, and `false` returned, where one of the two does not resolve.
    pub fn del_route<F: NodeName, T: NodeName>(
        &mut self,
        from: F,
        to: T,
        listing: Option<RICS_Response>,
    ) -> (sent: bool)
        ensures
            route_request(old(self)@, final(self)@, from, to, listing, false, sent),
    {
        let ghost before = self@;
        if let Some(f) = from.get_name(self, listing) {
            let ghost known = self@;
            if let Some(t) = to.get_name_cached(self) {
                self.send_request(RICS_Request::DelRoute(RICS_Route { from: f, to: t }));
                proof {
                    assert(joins(known, from, to, f, t));
                    assert(self@ == known.sent(route_asked(false, f, t)));
                }
                true
            } else {
                false
            }
        } else {
            false
        }
    }

    /// Asks the daemon to add a route between two nodes. Nothing is queued,
    /// and `false` returned, where one of the two does not resolve.
    pub fn add_route<F: NodeName, T: NodeName>(
        &mut self,
        from: F,
        to: T,
        listing: Option<RICS_Response>,
    ) -> (sent: bool)
        ensures
            route_request(old(self)@, final(self)@, from, to, listing, true, sent),
    {
        let ghost before = self@;
        if let Some(f) = from.get_name(self, listing) {
            let ghost known = self@;
            if let Some(t) = to.get_name_cached(self) {
                self.send_request(RICS_Request::AddRoute(RICS_Route { from: f, to: t }));
                proof {
                    assert(joins(known, from, to, f, t));
                    assert(self@ == known.sent(route_asked(true, f, t)));
                }
                true
            } else {
                false
            }
        } else {
            false
        }
    }

    /// Queues a data packet for one node, whatever the routes.
    pub fn send_packet_to(&mut self, data: RICS_Data, target: i32)
        ensures
            final(self)@ == old(self)@.sent(
                RequestView::Data(DataView { target: Some(target), ..data@ }),
            ),
    {
        let mut data = data;
        data.target = Some(target);
        self.send_request(RICS_Request::Data(data));
    }

    /// Queues a data packet for the nodes that the sender's routes lead
    /// to.
    pub fn send_packet(&mut self, data: RICS_Data)
        ensures
            final(self)@ == old(self)@.sent(RequestView::Data(DataView { target: None, ..data@ })),
    {
        let mut data = data;
        data.target = None;
        self.send_request(RICS_Request::Data(data));
    }

    /// The response that a frame from the daemon holds; `None` where it
    /// holds none that can be read.
    pub fn get_response(payload: &[u8]) -> (response: Option<RICS_Response>)
        ensures
            match response_of(payload@) {
                Some(read) => response matches Some(got) && got@ == read,
                None => response is None,
            },
    {
        decode_response(payload)
    }

    /// The data packet of an answer, where it holds one.
    pub fn get_packet(reply: Option<RICS_Response>) -> (packet: Option<RICS_Data>)
        ensures
            match reply {
                Some(RICS_Response::Data(data)) => packet == Some(data),
                _ => packet is None,
            },
    {
        match reply {
            Some(RICS_Response::Data(data)) => Some(data),
            _ => None,
        }
    }
}

/// Whether the two ends resolve to `f` and `t`.
pub open spec fn joins<F: NodeName, T: NodeName>(
    known: ClientView,
    from: F,
    to: T,
    f: i32,
    t: i32,
) -> bool {
    from.resolves(known, Some(f)) && to.resolves(known, Some(t))
}

/// What the client knows once `from` is resolved: the names that the
/// daemon listed where `from` asks for them, else what the client knew.
pub open spec fn told<F: NodeName>(
    before: ClientView,
    from: F,
    listing: Option<RICS_Response>,
) -> ClientView {
    if from.asks() {
        ClientView { names: names_told(listing), ..before }
    } else {
        before
    }
}

/// The request for a route.
pub open spec fn route_asked(add: bool, f: i32, t: i32) -> RequestView {
    if add {
        RequestView::AddRoute(RICS_Route { from: f, to: t })
    } else {
        RequestView::DelRoute(RICS_Route { from: f, to: t })
    }
}

/// Whether `after` is the client after a request for a route between two
/// ends, resolved among what `known` holds. Where both ends resolve, the
/// request for the route between them is queued; where one does not,
/// nothing is.
pub open spec fn route_outcome<F: NodeName, T: NodeName>(
    known: ClientView,
    after: ClientView,
    from: F,
    to: T,
    add: bool,
    sent: bool,
) -> bool {
    if sent {
        exists|f: i32, t: i32|
            #[trigger] joins(known, from, to, f, t) && after == known.sent(route_asked(add, f, t))
    } else {
        after == known && (from.resolves(known, None) || to.resolves(known, None))
    }
}

/// What `add_route` and `del_route` do: the ends are resolved among
/// `told(..)`, and the outcome is as `route_outcome` says.
pub open spec fn route_request<F: NodeName, T: NodeName>(
    before: ClientView,
    after: ClientView,
    from: F,
    to: T,
    listing: Option<RICS_Response>,
    add: bool,
    sent: bool,
) -> bool {
    route_outcome(told(before, from, listing), after, from, to, add, sent)
}

spec fn keys_distinct(pairs: Seq<(i32, String)>) -> bool {
    forall|j: int, k: int| 0 <= j < k < pairs.len() ==> pairs[j].0 != pairs[k].0
}

spec fn picked(ids: Seq<i32>, pairs: Seq<(i32, String)>, name: Seq<char>) -> bool {
    &&& ids.no_duplicates()
    &&& forall|id: i32|
        ids.contains(id) <==> exists|j: int|
            0 <= j < pairs.len() && (#[trigger] pairs[j]).0 == id && pairs[j].1@ == name
}

proof fn lemma_pairs_have_distinct_keys(m: Map<i32, String>, pairs: Seq<(i32, String)>)
    requires
        pairs.to_set() == m.kv_pairs(),
        pairs.no_duplicates(),
    ensures
        keys_distinct(pairs),
{
    assert forall|j: int, k: int| 0 <= j < k < pairs.len() implies pairs[j].0 != pairs[k].0 by {
        assert(pairs.to_set().contains(pairs[j]));
        assert(pairs.to_set().contains(pairs[k]));
        assert(m.kv_pairs().contains(pairs[j]));
        assert(m.kv_pairs().contains(pairs[k]));
    }
}

proof fn lemma_picked_one_more(
    ids: Seq<i32>,
    pairs: Seq<(i32, String)>,
    name: Seq<char>,
    pair: (i32, String),
)
    requires
        picked(ids, pairs, name),
        forall|j: int| 0 <= j < pairs.len() ==> (#[trigger] pairs[j]).0 != pair.0,
    ensures
        pair.1@ == name ==> picked(ids.push(pair.0), pairs.push(pair), name),
        pair.1@ != name ==> picked(ids, pairs.push(pair), name),
{
    let more = pairs.push(pair);
    assert(more[pairs.len() as int] == pair);
    assert forall|j: int| 0 <= j < pairs.len() implies more[j] == pairs[j] by {}
    if pair.1@ == name {
        let grown = ids.push(pair.0);
        assert(grown[ids.len() as int] == pair.0);
        assert(!ids.contains(pair.0)) by {
            if ids.contains(pair.0) {
                let j = choose|j: int|
                    0 <= j < pairs.len() && (#[trigger] pairs[j]).0 == pair.0 && pairs[j].1@
                        == name;
                assert(pairs[j].0 != pair.0);
            }
        }
        assert forall|i: int, j: int|
            0 <= i < grown.len() && 0 <= j < grown.len() && i != j implies grown[i]
            != grown[j] by {
            if i < ids.len() {
                assert(ids.contains(ids[i]));
            }
            if j < ids.len() {
                assert(ids.contains(ids[j]));
            }
        }
        assert forall|id: i32|
            grown.contains(id) <==> exists|j: int|
                0 <= j < more.len() && (#[trigger] more[j]).0 == id && more[j].1@ == name by {
            if grown.contains(id) {
                let i = choose|i: int| 0 <= i < grown.len() && grown[i] == id;
                if i < ids.len() {
                    assert(ids.contains(id));
                    let j = choose|j: int|
                        0 <= j < pairs.len() && (#[trigger] pairs[j]).0 == id && pairs[j].1@
                            == name;
                    assert(more[j].0 == id && more[j].1@ == name);
                } else {
                    assert(more[pairs.len() as int].0 == id);
                }
            }
            if exists|j: int|
                0 <= j < more.len() && (#[trigger] more[j]).0 == id && more[j].1@ == name {
                let j = choose|j: int|
                    0 <= j < more.len() && (#[trigger] more[j]).0 == id && more[j].1@ == name;
                if j < pairs.len() {
                    assert(pairs[j].0 == id && pairs[j].1@ == name);
                    assert(ids.contains(id));
                    let i = choose|i: int| 0 <= i < ids.len() && ids[i] == id;
                    assert(grown[i] == id);
                } else {
                    assert(grown[ids.len() as int] == id);
                }
            }
        }
    } else {
        assert forall|id: i32|
            ids.contains(id) <==> exists|j: int|
                0 <= j < more.len() && (#[trigger] more[j]).0 == id && more[j].1@ == name by {
            if ids.contains(id) {
                let j = choose|j: int|
                    0 <= j < pairs.len() && (#[trigger] pairs[j]).0 == id && pairs[j].1@ == name;
                assert(more[j].0 == id && more[j].1@ == name);
            }
            if exists|j: int|
                0 <= j < more.len() && (#[trigger] more[j]).0 == id && more[j].1@ == name {
                let j = choose|j: int|
                    0 <= j < more.len() && (#[trigger] more[j]).0 == id && more[j].1@ == name;
                assert(j < pairs.len());
                assert(pairs[j].0 == id && pairs[j].1@ == name);
            }
        }
    }
}

/// A CAN packet as `can_packet` makes it.
pub open spec fn can_packet_view(id: i32, dat: Seq<u8>) -> DataView {
    DataView { field_type: RICS_Data_RICS_DataType::CAN, id, data: dat, ..DataView::empty() }
}

/// A stream packet as `stream_packet` makes it.
pub open spec fn stream_packet_view(dat: Seq<u8>) -> DataView {
    DataView { field_type: RICS_Data_RICS_DataType::STREAM, data: dat, ..DataView::empty() }
}

/// A CAN packet with the given frame id and payload, with no source and no
/// target.
pub fn can_packet(id: i32, dat: Vec<u8>) -> (data: RICS_Data)
    ensures
        data@ == can_packet_view(id, dat@),
{
    let mut data = RICS_Data::new();
    data.id = id;
    data.data = dat;
    data.field_type = RICS_Data_RICS_DataType::CAN;
    data
}

/// A stream packet with the given payload, with no source and no target.
pub fn stream_packet(dat: Vec<u8>) -> (data: RICS_Data)
    ensures
        data@ == stream_packet_view(dat@),
{
    let mut data = RICS_Data::new();
    data.data = dat;
    data.field_type = RICS_Data_RICS_DataType::STREAM;
    data
}

/// A CAN packet that is written as bytes and read back is a CAN packet with
/// the same id and the same payload.
pub proof fn lemma_can_packet_round_trip(id: i32, dat: Seq<u8>)
    requires
        dat.len() <= u64::MAX,
    ensures
        data_of(data_bytes(can_packet_view(id, dat))) == Some(can_packet_view(id, dat)),
        data_of(data_bytes(can_packet_view(id, dat))) matches Some(read)
            && read.field_type == RICS_Data_RICS_DataType::CAN && read.id == id && read.data
            == dat,
{
    lemma_data_round_trip(can_packet_view(id, dat));
}

/// The payload as text: its bytes in decimal, with `", "` between them.
pub open spec fn payload_text(dat: Seq<u8>) -> Seq<char>
    decreases dat.len(),
{
    if dat.len() == 0 {
        Seq::empty()
    } else if dat.len() == 1 {
        decimal(dat[0] as int)
    } else {
        payload_text(dat.drop_last()) + seq![',', ' '] + decimal(dat.last() as int)
    }
}

/// A data packet as text: `<source -> target (id) [payload]>`, with zero
/// for a target that is not set.
pub open spec fn data_text(data: DataView) -> Seq<char> {
    seq!['<'] + decimal(data.source as int) + seq![' ', '-', '>', ' '] + decimal(
        data.target_or_zero() as int,
    ) + seq![' ', '('] + decimal(data.id as int) + seq![')', ' ', '['] + payload_text(data.data)
        + seq![']', '>']
}

/// A response as text: the node of an answer to `WHO_AM_I`, a data packet
/// as `data_text` writes it, `<???>` for anything else.
pub open spec fn response_text(response: ResponseView) -> Seq<char> {
    match response {
        ResponseView::Node(node) => seq!['<', 'W', 'H', 'O', '_', 'A', 'M', '_', 'I', ':', ' ']
            + decimal(node as int) + seq!['>'],
        ResponseView::Data(data) => data_text(data),
        _ => seq!['<', '?', '?', '?', '>'],
    }
}

fn push_payload(out: &mut String, dat: &Vec<u8>)
    ensures
        final(out)@ == old(out)@ + payload_text(dat@),
{
    let mut k: usize = 0;
    assert(dat@.subrange(0, 0) =~= Seq::<u8>::empty());
    assert(out@ =~= old(out)@ + payload_text(dat@.subrange(0, 0)));
    while k < dat.len()
        invariant
            k <= dat.len(),
            out@ == old(out)@ + payload_text(dat@.subrange(0, k as int)),
        decreases dat.len() - k,
    {
        let ghost done = out@;
        let ghost prefix = dat@.subrange(0, k + 1);
        proof {
            assert(prefix.drop_last() =~= dat@.subrange(0, k as int));
            assert(prefix.last() == dat@[k as int]);
            reveal_strlit(", ");
        }
        if k > 0 {
            out.append(", ");
            assert(", "@ =~= seq![',', ' ']);
        }
        push_decimal(out, dat[k] as i32);
        proof {
            if k == 0 {
                assert(prefix[0] == dat@[0]);
                assert(out@ =~= old(out)@ + payload_text(prefix));
            } else {
                assert(out@ =~= old(out)@ + payload_text(prefix));
            }
        }
        k = k + 1;
    }
    assert(dat@.subrange(0, dat.len() as int) =~= dat@);
}

/// Writes a data packet as text.
pub fn data_to_string(data: &RICS_Data) -> (text: String)
    ensures
        text@ == data_text(data@),
{
    let mut text = String::new();
    proof {
        reveal_strlit("<");
        reveal_strlit(" -> ");
        reveal_strlit(" (");
        reveal_strlit(") [");
        reveal_strlit("]>");
        assert("<"@ =~= seq!['<']);
        assert(" -> "@ =~= seq![' ', '-', '>', ' ']);
        assert(" ("@ =~= seq![' ', '(']);
        assert(") ["@ =~= seq![')', ' ', '[']);
        assert("]>"@ =~= seq![']', '>']);
    }
    text.append("<");
    push_decimal(&mut text, data.source);
    text.append(" -> ");
    push_decimal(&mut text, data.get_target());
    text.append(" (");
    push_decimal(&mut text, data.id);
    text.append(") [");
    push_payload(&mut text, &data.data);
    text.append("]>");
    assert(text@ =~= data_text(data@));
    text
}

/// Writes a response as text.
pub fn response_to_string(resp: &RICS_Response) -> (text: String)
    ensures
        text@ == response_text(resp@),
{
    match resp {
        RICS_Response::Node(node) => {
            let mut text = String::new();
            proof {
                reveal_strlit("<WHO_AM_I: ");
                reveal_strlit(">");
                assert("<WHO_AM_I: "@ =~= seq![
                    '<',
                    'W',
                    'H',
                    'O',
                    '_',
                    'A',
                    'M',
                    '_',
                    'I',
                    ':',
                    ' ',
                ]);
                assert(">"@ =~= seq!['>']);
            }
            text.append("<WHO_AM_I: ");
            push_decimal(&mut text, *node);
            text.append(">");
            assert(text@ =~= response_text(resp@));
            text
        },
        RICS_Response::Data(data) => data_to_string(data),
        _ => {
            let mut text = String::new();
            proof {
                reveal_strlit("<???>");
                assert("<???>"@ =~= seq!['<', '?', '?', '?', '>']);
            }
            text.append("<???>");
            assert(text@ =~= response_text(resp@));
            text
        },
    }
}

} // verus!
