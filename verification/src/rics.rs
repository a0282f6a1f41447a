//! The messages that clients and the daemon exchange.
//!
//! Each message type has a view that replaces its buffers by sequences, so
//! that contracts can compare messages by what they hold.

use vstd::prelude::*;

verus! {

/// What a data packet carries.
#[allow(non_camel_case_types)]
#[derive(Clone, Copy, Debug, PartialEq, Eq, Structural)]
pub enum RICS_Data_RICS_DataType {
    /// A CAN frame: subject to broadcast and to the drop chance.
    CAN,
    /// A chunk of a byte stream.
    STREAM,
}

/// A request that carries no argument.
#[allow(non_camel_case_types)]
#[derive(Clone, Copy, Debug, PartialEq, Eq, Structural)]
pub enum RICS_Request_RICS_Query {
    NULL,
    LIST_SINK,
    WHO_AM_I,
    SET_FLAG_CAN_BROADCAST,
    CLEAR_FLAG_CAN_BROADCAST,
    DAEMON_QUIT,
}

/// The first message of a connection.
#[allow(non_camel_case_types)]
#[derive(Clone, Copy, Debug, PartialEq, Eq, Structural)]
pub struct RICS_Connection {
    /// Whether the client asks for a row in the node table.
    pub connect_as_node: bool,
}

/// A directed edge of the routing table.
#[allow(non_camel_case_types)]
#[derive(Clone, Copy, Debug, PartialEq, Eq, Structural)]
pub struct RICS_Route {
    pub from: i32,
    pub to: i32,
}

/// A data packet.
#[allow(non_camel_case_types)]
#[derive(Debug, PartialEq, Eq)]
pub struct RICS_Data {
    pub field_type: RICS_Data_RICS_DataType,
    /// The payload's own id, such as a CAN frame id.
    pub id: i32,
    /// The node that sent the packet; the daemon stamps it.
    pub source: i32,
    /// The one node to deliver to, overriding the sender's routes.
    pub target: Option<i32>,
    pub data: Vec<u8>,
}

/// A data packet with its payload as a sequence.
#[allow(non_camel_case_types)]
pub struct DataView {
    pub field_type: RICS_Data_RICS_DataType,
    pub id: i32,
    pub source: i32,
    pub target: Option<i32>,
    pub data: Seq<u8>,
}

impl View for RICS_Data {
    type V = DataView;

    open spec fn view(&self) -> DataView {
        DataView {
            field_type: self.field_type,
            id: self.id,
            source: self.source,
            target: self.target,
            data: self.data@,
        }
    }
}

impl Clone for RICS_Data {
    fn clone(&self) -> (copy: Self)
        ensures
            copy@ == self@,
    {
        RICS_Data {
            field_type: self.field_type,
            id: self.id,
            source: self.source,
            target: self.target,
            data: self.data.clone(),
        }
    }
}

impl RICS_Data {
    /// A packet with every field at its default: a CAN packet with id and
    /// source zero, no target and no payload.
    pub fn new() -> (d: Self)
        ensures
            d@ == DataView::empty(),
    {
        RICS_Data {
            field_type: RICS_Data_RICS_DataType::CAN,
            id: 0,
            source: 0,
            target: None,
            data: Vec::new(),
        }
    }

    /// The target, or zero where none is set.
    pub fn get_target(&self) -> (t: i32)
        ensures
            t == self@.target_or_zero(),
    {
        match self.target {
            Some(t) => t,
            None => 0,
        }
    }
}

impl DataView {
    pub open spec fn empty() -> DataView {
        DataView {
            field_type: RICS_Data_RICS_DataType::CAN,
            id: 0,
            source: 0,
            target: None,
            data: Seq::empty(),
        }
    }

    pub open spec fn is_can(self) -> bool {
        self.field_type == RICS_Data_RICS_DataType::CAN
    }

    pub open spec fn target_or_zero(self) -> i32 {
        match self.target {
            Some(t) => t,
            None => 0,
        }
    }

    /// The packet with its source replaced.
    pub open spec fn stamped(self, source: i32) -> DataView {
        DataView { source, ..self }
    }
}

/// One row of a node listing.
#[allow(non_camel_case_types)]
#[derive(Debug, PartialEq, Eq)]
pub struct RICS_Response_RICS_Id {
    pub id: i32,
    pub name: String,
}

/// A row of a node listing with its name as a sequence.
pub struct IdView {
    pub id: i32,
    pub name: Seq<char>,
}

impl View for RICS_Response_RICS_Id {
    type V = IdView;

    open spec fn view(&self) -> IdView {
        IdView { id: self.id, name: self.name@ }
    }
}

impl Clone for RICS_Response_RICS_Id {
    fn clone(&self) -> (copy: Self)
        ensures
            copy@ == self@,
    {
        RICS_Response_RICS_Id { id: self.id, name: self.name.clone() }
    }
}

/// A node listing.
#[allow(non_camel_case_types)]
#[derive(Debug, PartialEq, Eq)]
pub struct RICS_Response_RICS_IdList {
    pub ids: Vec<RICS_Response_RICS_Id>,
}

impl View for RICS_Response_RICS_IdList {
    type V = Seq<IdView>;

    open spec fn view(&self) -> Seq<IdView> {
        Seq::new(self.ids@.len(), |i: int| self.ids@[i]@)
    }
}

/// What a client asks of the daemon: one of six things, or nothing that the
/// daemon knows.
#[allow(non_camel_case_types)]
#[derive(Debug, PartialEq, Eq)]
pub enum RICS_Request {
    SetName(String),
    Query(RICS_Request_RICS_Query),
    Data(RICS_Data),
    AddRoute(RICS_Route),
    DelRoute(RICS_Route),
    /// The new drop chance, as the bit pattern of a single-precision number.
    CanDropChance(u32),
    /// A request without any field that the daemon knows.
    Unrecognized,
}

/// A request with its buffers as sequences.
pub enum RequestView {
    SetName(Seq<char>),
    Query(RICS_Request_RICS_Query),
    Data(DataView),
    AddRoute(RICS_Route),
    DelRoute(RICS_Route),
    CanDropChance(u32),
    Unrecognized,
}

impl View for RICS_Request {
    type V = RequestView;

    open spec fn view(&self) -> RequestView {
        match self {
            RICS_Request::SetName(name) => RequestView::SetName(name@),
            RICS_Request::Query(q) => RequestView::Query(*q),
            RICS_Request::Data(d) => RequestView::Data(d@),
            RICS_Request::AddRoute(r) => RequestView::AddRoute(*r),
            RICS_Request::DelRoute(r) => RequestView::DelRoute(*r),
            RICS_Request::CanDropChance(bits) => RequestView::CanDropChance(*bits),
            RICS_Request::Unrecognized => RequestView::Unrecognized,
        }
    }
}

/// What the daemon sends to a client.
#[allow(non_camel_case_types)]
#[derive(Debug, PartialEq, Eq)]
pub enum RICS_Response {
    /// The id of the node that asked.
    Node(i32),
    IdList(RICS_Response_RICS_IdList),
    Data(RICS_Data),
    /// A response without any field: the answer to a client that owns no node
    /// and asks who it is.
    Empty,
}

/// A response with its buffers as sequences.
pub enum ResponseView {
    Node(i32),
    IdList(Seq<IdView>),
    Data(DataView),
    Empty,
}

impl View for RICS_Response {
    type V = ResponseView;

    open spec fn view(&self) -> ResponseView {
        match self {
            RICS_Response::Node(n) => ResponseView::Node(*n),
            RICS_Response::IdList(l) => ResponseView::IdList(l@),
            RICS_Response::Data(d) => ResponseView::Data(d@),
            RICS_Response::Empty => ResponseView::Empty,
        }
    }
}

impl RICS_Response {
    /// The node id that the response carries, or zero.
    pub fn get_node(&self) -> (n: i32)
        ensures
            n == self@.node_or_zero(),
    {
        match self {
            RICS_Response::Node(n) => *n,
            _ => 0,
        }
    }

    pub fn has_node(&self) -> (b: bool)
        ensures
            b == (self@ is Node),
    {
        match self {
            RICS_Response::Node(_) => true,
            _ => false,
        }
    }

    pub fn has_data(&self) -> (b: bool)
        ensures
            b == (self@ is Data),
    {
        match self {
            RICS_Response::Data(_) => true,
            _ => false,
        }
    }
}

impl ResponseView {
    pub open spec fn node_or_zero(self) -> i32 {
        match self {
            ResponseView::Node(n) => n,
            _ => 0,
        }
    }

    /// The rows of the listing that the response carries; none where it
    /// carries something else.
    pub open spec fn rows(self) -> Seq<IdView> {
        match self {
            ResponseView::IdList(rows) => rows,
            _ => Seq::empty(),
        }
    }
}

} // verus!
