use vstd::prelude::*;

verus! {

/// A node's list of identities as plain character sequences.
pub open spec fn ids_view(v: Seq<String>) -> Seq<Seq<char>> {
    v.map_values(|s: String| s@)
}

/// One entry of a topology: a node and its direct neighbours.
pub type TopologyEntry = (String, Vec<String>);

pub open spec fn topology_view(t: Seq<TopologyEntry>) -> Seq<(Seq<char>, Seq<Seq<char>>)> {
    t.map_values(|e: TopologyEntry| (e.0@, ids_view(e.1@)))
}

/// The typed payload of a message body; the wire tag is the variant's
/// snake-case name.
pub enum Payload {
    Init { node_id: String, node_ids: Vec<String> },
    InitOk,
    Echo { echo: String },
    EchoOk { echo: String },
    Generate,
    GenerateOk { id: String },
    Broadcast { message: u64 },
    BroadcastOk,
    Read,
    /// Reply to `Read` on a broadcast node: every value seen so far.
    ReadOk { messages: Vec<u64> },
    /// Reply to `Read` on a counter node: the accumulator.
    ReadValueOk { value: u64 },
    Topology { topology: Vec<TopologyEntry> },
    TopologyOk,
    Add { delta: u64 },
    AddOk,
}

/// A payload with every string and list replaced by its mathematical value.
pub enum PayloadView {
    Init { node_id: Seq<char>, node_ids: Seq<Seq<char>> },
    InitOk,
    Echo { echo: Seq<char> },
    EchoOk { echo: Seq<char> },
    Generate,
    GenerateOk { id: Seq<char> },
    Broadcast { message: u64 },
    BroadcastOk,
    Read,
    ReadOk { messages: Seq<u64> },
    ReadValueOk { value: u64 },
    Topology { topology: Seq<(Seq<char>, Seq<Seq<char>>)> },
    TopologyOk,
    Add { delta: u64 },
    AddOk,
}

impl View for Payload {
    type V = PayloadView;

    open spec fn view(&self) -> PayloadView {
        match self {
            Payload::Init { node_id, node_ids } => PayloadView::Init {
                node_id: node_id@,
                node_ids: ids_view(node_ids@),
            },
            Payload::InitOk => PayloadView::InitOk,
            Payload::Echo { echo } => PayloadView::Echo { echo: echo@ },
            Payload::EchoOk { echo } => PayloadView::EchoOk { echo: echo@ },
            Payload::Generate => PayloadView::Generate,
            Payload::GenerateOk { id } => PayloadView::GenerateOk { id: id@ },
            Payload::Broadcast { message } => PayloadView::Broadcast { message: *message },
            Payload::BroadcastOk => PayloadView::BroadcastOk,
            Payload::Read => PayloadView::Read,
            Payload::ReadOk { messages } => PayloadView::ReadOk { messages: messages@ },
            Payload::ReadValueOk { value } => PayloadView::ReadValueOk { value: *value },
            Payload::Topology { topology } => PayloadView::Topology {
                topology: topology_view(topology@),
            },
            Payload::TopologyOk => PayloadView::TopologyOk,
            Payload::Add { delta } => PayloadView::Add { delta: *delta },
            Payload::AddOk => PayloadView::AddOk,
        }
    }
}

/// Message-id correlation and the payload.
pub struct GenericBody<P> {
    pub msg_id: Option<u64>,
    pub in_reply_to: Option<u64>,
    pub payload: P,
}

/// One envelope: source, destination and body.
pub struct GenericMessage<P> {
    pub src: String,
    pub dest: String,
    pub body: GenericBody<P>,
}

pub type Body = GenericBody<Payload>;

pub type Message = GenericMessage<Payload>;

/// An envelope as mathematical values.
pub struct EnvelopeView<V> {
    pub src: Seq<char>,
    pub dest: Seq<char>,
    pub msg_id: Option<u64>,
    pub in_reply_to: Option<u64>,
    pub payload: V,
}

pub type MessageView = EnvelopeView<PayloadView>;

impl<P: View> View for GenericMessage<P> {
    type V = EnvelopeView<P::V>;

    open spec fn view(&self) -> EnvelopeView<P::V> {
        EnvelopeView {
            src: self.src@,
            dest: self.dest@,
            msg_id: self.body.msg_id,
            in_reply_to: self.body.in_reply_to,
            payload: self.body.payload@,
        }
    }
}

pub open spec fn messages_view(v: Seq<Message>) -> Seq<MessageView> {
    v.map_values(|m: Message| m@)
}

impl<P> GenericMessage<P> {
    pub fn new(src: String, dest: String, msg_id: Option<u64>, in_reply_to: Option<u64>, payload: P) -> (r: GenericMessage<P>)
        ensures
            r.src == src,
            r.dest == dest,
            r.body.msg_id == msg_id,
            r.body.in_reply_to == in_reply_to,
            r.body.payload == payload,
    {
        GenericMessage { src, dest, body: GenericBody { msg_id, in_reply_to, payload } }
    }
}

/// The failures that stop a node: the handshake was not followed, or a
/// counter ran out.
#[derive(Clone, Copy, Debug, PartialEq, Eq, Structural)]
pub enum ProtocolError {
    /// The first message was not `init`.
    NotInitialized,
    /// A second `init` arrived.
    AlreadyInitialized,
    /// Every sequence number for generated ids has been used.
    SequenceExhausted,
}

} // verus!
