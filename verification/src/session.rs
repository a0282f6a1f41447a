//! The life of one connection to the daemon.
//!
//! A connection starts in `Handshake`. Its first message makes it a `Node`,
//! which owns a row of the table, or a plain `Session`, which owns none. It
//! then serves one request after the other. When its inbound side ends or
//! sends what cannot be read, it goes to `Teardown` and its row is deleted.
//!
//! Nothing here reads or writes: each step takes what was read and says what
//! is to be written, and to whom.

use crate::forward::{destinations, reaches};
use crate::host::{rows_text, ServerState, TableView};
use crate::rics::{
    DataView, IdView, RICS_Connection, RICS_Request, RICS_Request_RICS_Query, RICS_Response,
    RICS_Response_RICS_Id, RICS_Response_RICS_IdList, RequestView, ResponseView,
};
use vstd::prelude::*;

verus! {

/// Where a connection stands.
#[derive(Clone, Copy, Debug, PartialEq, Eq, Structural)]
pub enum Phase {
    /// Nothing was read yet.
    Handshake,
    /// The connection owns the node of this id.
    Node(i32),
    /// The connection owns no node.
    Session,
    /// The connection is over.
    Teardown,
}

impl Phase {
    /// The node that the connection owns, if it owns one.
    pub open spec fn owner(self) -> Option<i32> {
        match self {
            Phase::Node(id) => Some(id),
            _ => None,
        }
    }

    /// Whether requests are served in this phase.
    pub open spec fn serving(self) -> bool {
        self is Node || self is Session
    }
}

/// What the owner of the connection has to do after a request.
#[derive(Debug, PartialEq, Eq)]
pub enum Action {
    Nothing,
    /// Write the response to the connection's own outbound side.
    Reply(RICS_Response),
    /// Write the response to the outbound side of each of the ids, in
    /// order.
    Forward(Vec<i32>, RICS_Response),
    /// End the process, with exit code 2.
    Quit,
}

/// An action with its buffers as sequences.
pub enum ActionView {
    Nothing,
    Reply(ResponseView),
    Forward(Seq<i32>, ResponseView),
    Quit,
}

impl View for Action {
    type V = ActionView;

    open spec fn view(&self) -> ActionView {
        match self {
            Action::Nothing => ActionView::Nothing,
            Action::Reply(response) => ActionView::Reply(response@),
            Action::Forward(targets, response) => ActionView::Forward(targets@, response@),
            Action::Quit => ActionView::Quit,
        }
    }
}

/// The rows of a listing as pairs of id and name.
pub open spec fn pairs_of(rows: Seq<IdView>) -> Seq<(i32, Seq<char>)> {
    Seq::new(rows.len(), |k: int| (rows[k].id, rows[k].name))
}

/// The packet as the daemon passes it on: with the sender's node as its
/// source where the sender owns one, and as it came where it owns none.
pub open spec fn stamp(packet: DataView, owner: Option<i32>) -> DataView {
    match owner {
        Some(node) => packet.stamped(node),
        None => packet,
    }
}

/// The phase after the first message, which is `None` where it could not be
/// read.
pub open spec fn opened<R, W>(t: TableView<R, W>, hello: Option<RICS_Connection>) -> Phase {
    match hello {
        None => Phase::Teardown,
        Some(connection) => if connection.connect_as_node {
            Phase::Node(t.allocator as i32)
        } else {
            Phase::Session
        },
    }
}

/// The table after the first message.
pub open spec fn table_opened<R, W>(
    t: TableView<R, W>,
    hello: Option<RICS_Connection>,
    input: R,
    output: W,
) -> TableView<R, W> {
    match hello {
        Some(connection) => if connection.connect_as_node {
            t.new_node(input, output)
        } else {
            t
        },
        None => t,
    }
}

/// The table after a request of a connection that owns `owner`.
pub open spec fn table_served<R, W>(
    t: TableView<R, W>,
    owner: Option<i32>,
    request: RequestView,
) -> TableView<R, W> {
    match request {
        RequestView::SetName(name) => match owner {
            Some(node) => t.rename_node(node, name),
            None => t,
        },
        RequestView::Query(RICS_Request_RICS_Query::SET_FLAG_CAN_BROADCAST) => t.set_can_broadcast(
            true,
        ),
        RequestView::Query(RICS_Request_RICS_Query::CLEAR_FLAG_CAN_BROADCAST) => t.set_can_broadcast(
            false,
        ),
        RequestView::Query(_) => t,
        RequestView::Data(_) => t,
        RequestView::AddRoute(route) => t.add_route(route.from, route.to),
        RequestView::DelRoute(route) => t.del_route(route.from, route.to),
        RequestView::CanDropChance(bits) => t.set_can_drop_chance(bits),
        RequestView::Unrecognized => t,
    }
}

/// Whether a request of a connection that owns `owner` may change the
/// table: a new name for the node that the connection owns, a new state of
/// the broadcast flag, a route that comes or goes, a new drop chance.
pub open spec fn writes(owner: Option<i32>, request: RequestView) -> bool {
    match request {
        RequestView::SetName(_) => owner is Some,
        RequestView::Query(RICS_Request_RICS_Query::SET_FLAG_CAN_BROADCAST) => true,
        RequestView::Query(RICS_Request_RICS_Query::CLEAR_FLAG_CAN_BROADCAST) => true,
        RequestView::AddRoute(_) => true,
        RequestView::DelRoute(_) => true,
        RequestView::CanDropChance(_) => true,
        _ => false,
    }
}

/// Whether `action` answers the request, on the table as it stood before
/// the request. A listing holds each node once. `WHO_AM_I` is answered with
/// the owned node, or with an empty response. A data packet is forwarded,
/// stamped, to where `reaches` says. Everything else asks for nothing.
pub open spec fn answers<R, W>(
    t: TableView<R, W>,
    owner: Option<i32>,
    request: RequestView,
    draw: u32,
    action: ActionView,
) -> bool {
    match request {
        RequestView::Query(RICS_Request_RICS_Query::LIST_SINK) => {
            &&& action matches ActionView::Reply(ResponseView::IdList(rows))
            &&& t.listed_by(pairs_of(rows))
        },
        RequestView::Query(RICS_Request_RICS_Query::WHO_AM_I) => action == ActionView::Reply(
            match owner {
                Some(node) => ResponseView::Node(node),
                None => ResponseView::Empty,
            },
        ),
        RequestView::Query(RICS_Request_RICS_Query::DAEMON_QUIT) => action == ActionView::Quit,
        RequestView::Data(packet) => {
            &&& action matches ActionView::Forward(targets, response)
            &&& response == ResponseView::Data(stamp(packet, owner))
            &&& reaches(t, owner, stamp(packet, owner), draw, targets)
        },
        _ => action == ActionView::Nothing,
    }
}

/// The handler of one connection.
pub struct Handler {
    phase: Phase,
}

impl View for Handler {
    type V = Phase;

    closed spec fn view(&self) -> Phase {
        self.phase
    }
}

fn rows_of(listed: Vec<(i32, String)>) -> (list: RICS_Response_RICS_IdList)
    ensures
        pairs_of(list@) == rows_text(listed@),
{
    let mut ids: Vec<RICS_Response_RICS_Id> = Vec::new();
    let mut k: usize = 0;
    while k < listed.len()
        invariant
            k <= listed.len(),
            ids@.len() == k,
            forall|j: int|
                0 <= j < k ==> (#[trigger] ids@[j]).id == listed@[j].0 && ids@[j].name@
                    == listed@[j].1@,
        decreases listed.len() - k,
    {
        let id = listed[k].0;
        let name = listed[k].1.clone();
        ids.push(RICS_Response_RICS_Id { id, name });
        k = k + 1;
    }
    let list = RICS_Response_RICS_IdList { ids };
    assert(pairs_of(list@) =~= rows_text(listed@));
    list
}

impl Handler {
    /// The handler of a connection that was just accepted.
    pub fn new() -> (handler: Handler)
        ensures
            handler@ == Phase::Handshake,
    {
        Handler { phase: Phase::Handshake }
    }

    pub fn phase(&self) -> (phase: Phase)
        ensures
            phase == self@,
    {
        self.phase
    }

    /// The node that the connection owns, if it owns one.
    pub fn node(&self) -> (owner: Option<i32>)
        ensures
            owner == self@.owner(),
    {
        match self.phase {
            Phase::Node(id) => Some(id),
            _ => None,
        }
    }

    /// Whether the connection still serves requests.
    pub fn is_serving(&self) -> (serving: bool)
        ensures
            serving == self@.serving(),
    {
        match self.phase {
            Phase::Node(_) => true,
            Phase::Session => true,
            _ => false,
        }
    }

    /// Takes the first message of the connection: `None` where it could not
    /// be read. A client that connects as a node gets a row in the table,
    /// with `input` and `output` as its handles and its id as its name. After
    /// the handshake this does nothing.
    pub fn open<R, W>(
        &mut self,
        state: &mut ServerState<R, W>,
        hello: Option<RICS_Connection>,
        input: R,
        output: W,
    )
        requires
            old(self)@ is Handshake && opened(old(state)@, hello) is Node ==> old(
                state,
            )@.has_room(),
        ensures
            old(self)@ is Handshake ==> final(self)@ == opened(old(state)@, hello) && final(state)@
                == table_opened(old(state)@, hello, input, output),
            !(old(self)@ is Handshake) ==> final(self)@ == old(self)@ && final(state)@ == old(
                state,
            )@,
            old(state)@.wf() ==> final(state)@.wf(),
            old(state)@.wf() && old(state)@.routes_known() ==> final(state)@.routes_known(),
    {
        match self.phase {
            Phase::Handshake => {},
            _ => {
                return ;
            },
        }
        match hello {
            None => {
                self.phase = Phase::Teardown;
            },
            Some(connection) => {
                if connection.connect_as_node {
                    let node = state.new_node(input, output);
                    self.phase = Phase::Node(node);
                } else {
                    self.phase = Phase::Session;
                }
            },
        }
    }

    /// Tells whether serving the request may change the table. A caller
    /// that shares the table between connections needs it for itself alone
    /// while such a request is served, and may share it with other readers
    /// while any other request is answered.
    pub fn changes_table(&self, request: &RICS_Request) -> (changes: bool)
        ensures
            changes == (self@.serving() && writes(self@.owner(), request@)),
    {
        if !self.is_serving() {
            return false;
        }
        match request {
            RICS_Request::SetName(_) => self.node().is_some(),
            RICS_Request::Query(RICS_Request_RICS_Query::SET_FLAG_CAN_BROADCAST) => true,
            RICS_Request::Query(RICS_Request_RICS_Query::CLEAR_FLAG_CAN_BROADCAST) => true,
            RICS_Request::AddRoute(_) => true,
            RICS_Request::DelRoute(_) => true,
            RICS_Request::CanDropChance(_) => true,
            _ => false,
        }
    }

    /// Answers one request without changing the table: the action returned
    /// is what `answers` asks for. This is all there is to serving a request
    /// that does not write; the table stays to be changed for one that
    /// does. `draw` is the random draw made for this request; it is looked
    /// at only for a CAN packet under a chance that is not zero. Before the
    /// handshake and after the teardown nothing is answered.
    pub fn answer<R, W>(&self, state: &ServerState<R, W>, request: RICS_Request, draw: u32) -> (action:
        Action)
        ensures
            self@.serving() ==> answers(state@, self@.owner(), request@, draw, action@),
            !self@.serving() ==> action@ == ActionView::Nothing,
    {
        if !self.is_serving() {
            return Action::Nothing;
        }
        let owner = self.node();
        match request {
            RICS_Request::Query(RICS_Request_RICS_Query::LIST_SINK) => {
                let list = rows_of(state.list());
                Action::Reply(RICS_Response::IdList(list))
            },
            RICS_Request::Query(RICS_Request_RICS_Query::WHO_AM_I) => match owner {
                Some(node) => Action::Reply(RICS_Response::Node(node)),
                None => Action::Reply(RICS_Response::Empty),
            },
            RICS_Request::Query(RICS_Request_RICS_Query::DAEMON_QUIT) => Action::Quit,
            RICS_Request::Data(packet) => {
                let mut packet = packet;
                match owner {
                    Some(node) => {
                        packet.source = node;
                    },
                    None => {},
                }
                let targets = destinations(state, owner, &packet, draw);
                Action::Forward(targets, RICS_Response::Data(packet))
            },
            _ => Action::Nothing,
        }
    }

    /// Serves one request. The table changes as `table_served` says, and
    /// the action returned is what `answers` asks for. `draw` is the random
    /// draw made for this request; it is looked at only for a CAN packet
    /// under a chance that is not zero. Before the handshake and after the
    /// teardown nothing is served.
    pub fn serve<R, W>(&mut self, state: &mut ServerState<R, W>, request: RICS_Request, draw: u32) -> (action:
        Action)
        ensures
            final(self)@ == old(self)@,
            old(self)@.serving() ==> final(state)@ == table_served(
                old(state)@,
                old(self)@.owner(),
                request@,
            ) && answers(old(state)@, old(self)@.owner(), request@, draw, action@),
            !old(self)@.serving() ==> final(state)@ == old(state)@ && action@
                == ActionView::Nothing,
            old(state)@.wf() ==> final(state)@.wf(),
    {
        if !self.is_serving() {
            return Action::Nothing;
        }
        let owner = self.node();
        match request {
            RICS_Request::SetName(name) => {
                match owner {
                    Some(node) => {
                        state.rename_node(node, name);
                    },
                    None => {},
                }
                Action::Nothing
            },
            RICS_Request::Query(RICS_Request_RICS_Query::SET_FLAG_CAN_BROADCAST) => {
                state.set_can_broadcast(true);
                Action::Nothing
            },
            RICS_Request::Query(RICS_Request_RICS_Query::CLEAR_FLAG_CAN_BROADCAST) => {
                state.set_can_broadcast(false);
                Action::Nothing
            },
            RICS_Request::AddRoute(route) => {
                state.add_route(route.from, route.to);
                Action::Nothing
            },
            RICS_Request::DelRoute(route) => {
                state.del_route(route.from, route.to);
                Action::Nothing
            },
            RICS_Request::CanDropChance(bits) => {
                state.set_can_drop_chance(bits);
                Action::Nothing
            },
            reading => self.answer(state, reading, draw),
        }
    }

    /// Ends the connection: its node, if it owns one, leaves the table.
    pub fn close<R, W>(&mut self, state: &mut ServerState<R, W>)
        ensures
            final(self)@ == Phase::Teardown,
            final(state)@ == match old(self)@.owner() {
                Some(node) => old(state)@.delete_node(node),
                None => old(state)@,
            },
            old(state)@.wf() ==> final(state)@.wf(),
            old(state)@.routes_known() ==> final(state)@.routes_known(),
    {
        match self.phase {
            Phase::Node(node) => {
                state.delete_node(node);
            },
            _ => {},
        }
        self.phase = Phase::Teardown;
    }
}

/// A request that does not write leaves the table as it is, and a request
/// that writes asks for nothing to be sent: to answer the one and to change
/// the table for the other is all there is to serving.
pub proof fn lemma_requests_read_or_write<R, W>(
    t: TableView<R, W>,
    owner: Option<i32>,
    request: RequestView,
    draw: u32,
    action: ActionView,
)
    ensures
        !writes(owner, request) ==> table_served(t, owner, request) == t,
        writes(owner, request) && answers(t, owner, request, draw, action) ==> action
            == ActionView::Nothing,
{
}

/// What a receiver sees as the source of a packet that a node sent is that
/// node's id, whatever the sender wrote there: two requests that differ in
/// their source alone are forwarded as the same packet.
pub proof fn lemma_source_is_the_sender<R, W>(
    t: TableView<R, W>,
    node: i32,
    packet: DataView,
    forged: i32,
    draw: u32,
    action: ActionView,
)
    requires
        answers(t, Some(node), RequestView::Data(packet.stamped(forged)), draw, action),
    ensures
        action matches ActionView::Forward(_, ResponseView::Data(seen)) && seen.source == node
            && seen == packet.stamped(node),
        answers(t, Some(node), RequestView::Data(packet), draw, action),
{
}

/// A packet from a connection that owns no node travels with the source it
/// came with.
pub proof fn lemma_source_without_node<R, W>(
    t: TableView<R, W>,
    packet: DataView,
    draw: u32,
    action: ActionView,
)
    requires
        answers(t, None, RequestView::Data(packet), draw, action),
    ensures
        action matches ActionView::Forward(_, ResponseView::Data(seen)) && seen == packet,
{
}

} // verus!
