use vstd::prelude::*;
use vstd::arithmetic::div_mod::{lemma_add_mod_noop, lemma_small_mod};
use crate::counter::{GCounter, add_delta};
use crate::decimal::{decimal, push_decimal};
use crate::message::{GenericBody, GenericMessage, Message, MessageView, Payload, PayloadView, ProtocolError, ids_view, messages_view, topology_view};
use crate::seen::SeenSet;
use crate::topology::{Topology, neighbors, others, others_of};

verus! {

/// What a node process does: each role answers a fixed set of payloads.
#[derive(Clone, Copy, Debug, PartialEq, Eq, Structural)]
pub enum Role {
    /// Answers `echo` only.
    Echo,
    /// Adds `generate`.
    UniqueIds,
    /// Records broadcast values without forwarding them.
    Broadcast,
    /// Records broadcast values and floods new ones along the topology.
    FloodBroadcast,
    /// Flooding broadcast plus the grow-only counter.
    GCounter,
}

impl Role {
    pub open spec fn generates(self) -> bool {
        self == Role::UniqueIds || self == Role::FloodBroadcast || self == Role::GCounter
    }

    pub open spec fn broadcasts(self) -> bool {
        self == Role::Broadcast || self == Role::FloodBroadcast || self == Role::GCounter
    }

    pub open spec fn floods(self) -> bool {
        self == Role::FloodBroadcast || self == Role::GCounter
    }

    pub open spec fn counts(self) -> bool {
        self == Role::GCounter
    }

    /// Whether this role answers `generate`.
    pub fn handles_generate(&self) -> (r: bool)
        ensures
            r == self.generates(),
    {
        *self == Role::UniqueIds || *self == Role::FloodBroadcast || *self == Role::GCounter
    }

    /// Whether this role records broadcast values.
    pub fn handles_broadcast(&self) -> (r: bool)
        ensures
            r == self.broadcasts(),
    {
        *self == Role::Broadcast || *self == Role::FloodBroadcast || *self == Role::GCounter
    }

    /// Whether this role keeps a topology and floods new values along it.
    pub fn handles_flooding(&self) -> (r: bool)
        ensures
            r == self.floods(),
    {
        *self == Role::FloodBroadcast || *self == Role::GCounter
    }

    /// Whether this role keeps the grow-only counter.
    pub fn handles_counter(&self) -> (r: bool)
        ensures
            r == self.counts(),
    {
        *self == Role::GCounter
    }
}

/// The state of a node as mathematical values.
pub struct NodeView {
    pub role: Role,
    /// Whether the handshake has happened.
    pub ready: bool,
    pub id: Seq<char>,
    /// The full roster received at the handshake.
    pub peers: Seq<Seq<char>>,
    /// The id the next outbound message carries.
    pub next_msg_id: u64,
    /// How many ids `generate` has handed out.
    pub sequence: u64,
    pub seen: Seq<u64>,
    pub topology: Seq<(Seq<char>, Seq<Seq<char>>)>,
    pub counter: u64,
}

pub open spec fn id_space() -> int {
    0x1_0000_0000_0000_0000
}

/// The message id `k` places after `start`, wrapping around.
pub open spec fn next_id(start: u64, k: nat) -> u64 {
    ((start + k) % id_space()) as u64
}

/// Identities that start with `c` are clients; every other one is a replica.
pub open spec fn is_client_id(src: Seq<char>) -> bool {
    src.len() > 0 && src[0] == 'c'
}

/// The id handed out by the `k`-th `generate`: the node id, a dash, and `k`.
pub open spec fn generated_id(id: Seq<char>, k: nat) -> Seq<char> {
    id + seq!['-'] + decimal(k)
}

/// The answer from `n` to `m`.
pub open spec fn reply(n: NodeView, m: MessageView, p: PayloadView) -> MessageView {
    MessageView { src: n.id, dest: m.src, msg_id: Some(n.next_msg_id), in_reply_to: m.msg_id, payload: p }
}

/// Fresh messages carrying `p` from `n` to each of `dests`, numbered on from
/// the node's next id.
pub open spec fn sends(n: NodeView, dests: Seq<Seq<char>>, p: PayloadView) -> Seq<MessageView> {
    dests.map(|i: int, d: Seq<char>| MessageView {
        src: n.id,
        dest: d,
        msg_id: Some(next_id(n.next_msg_id, i as nat)),
        in_reply_to: None,
        payload: p,
    })
}

/// `n` having used `k` message ids.
pub open spec fn used(n: NodeView, k: nat) -> NodeView {
    NodeView { next_msg_id: next_id(n.next_msg_id, k), ..n }
}

/// One reply, then one fresh message of `p` to each of `dests`.
pub open spec fn answer_and_send(n: NodeView, m: MessageView, r: PayloadView, dests: Seq<Seq<char>>, p: PayloadView) -> Seq<MessageView> {
    seq![reply(n, m, r)] + sends(used(n, 1), dests, p)
}

/// Where a value first seen by `n` from `src` is flooded.
pub open spec fn flood_dests(n: NodeView, src: Seq<char>) -> Seq<Seq<char>> {
    if n.role.floods() { others(neighbors(n.topology, n.id), src) } else { Seq::empty() }
}

/// Where a delta received by `n` from `src` is replicated: to every other
/// replica if a client sent it, else nowhere.
pub open spec fn replica_dests(n: NodeView, src: Seq<char>) -> Seq<Seq<char>> {
    if is_client_id(src) { others(n.peers, n.id) } else { Seq::empty() }
}

/// The node's protocol: what `n` becomes, and what it sends, on receiving
/// `m`; or the failure that stops it.
pub open spec fn step(n: NodeView, m: MessageView) -> Result<(NodeView, Seq<MessageView>), ProtocolError> {
    let ignore = Ok((n, Seq::<MessageView>::empty()));
    if !n.ready {
        match m.payload {
            PayloadView::Init { node_id, node_ids } => {
                let n2 = NodeView { ready: true, id: node_id, peers: node_ids, ..n };
                Ok((used(n2, 1), seq![reply(n2, m, PayloadView::InitOk)]))
            },
            _ => Err(ProtocolError::NotInitialized),
        }
    } else {
        match m.payload {
            PayloadView::Init { .. } => Err(ProtocolError::AlreadyInitialized),
            PayloadView::Echo { echo } => Ok((used(n, 1), seq![reply(n, m, PayloadView::EchoOk { echo })])),
            PayloadView::Generate => {
                if !n.role.generates() {
                    ignore
                } else if n.sequence == u64::MAX {
                    Err(ProtocolError::SequenceExhausted)
                } else {
                    let k = (n.sequence + 1) as u64;
                    Ok((
                        used(NodeView { sequence: k, ..n }, 1),
                        seq![reply(n, m, PayloadView::GenerateOk { id: generated_id(n.id, k as nat) })],
                    ))
                }
            },
            PayloadView::Broadcast { message } => {
                if !n.role.broadcasts() {
                    ignore
                } else if n.seen.contains(message) {
                    Ok((used(n, 1), seq![reply(n, m, PayloadView::BroadcastOk)]))
                } else {
                    let dests = flood_dests(n, m.src);
                    Ok((
                        used(NodeView { seen: n.seen.push(message), ..n }, 1 + dests.len()),
                        answer_and_send(n, m, PayloadView::BroadcastOk, dests, PayloadView::Broadcast { message }),
                    ))
                }
            },
            PayloadView::Read => {
                if n.role.counts() {
                    Ok((used(n, 1), seq![reply(n, m, PayloadView::ReadValueOk { value: n.counter })]))
                } else if n.role.broadcasts() {
                    Ok((used(n, 1), seq![reply(n, m, PayloadView::ReadOk { messages: n.seen })]))
                } else {
                    ignore
                }
            },
            PayloadView::Topology { topology } => {
                if n.role.floods() {
                    Ok((used(NodeView { topology, ..n }, 1), seq![reply(n, m, PayloadView::TopologyOk)]))
                } else if n.role.broadcasts() {
                    Ok((used(n, 1), seq![reply(n, m, PayloadView::TopologyOk)]))
                } else {
                    ignore
                }
            },
            PayloadView::Add { delta } => {
                if !n.role.counts() {
                    ignore
                } else {
                    let dests = replica_dests(n, m.src);
                    let total = add_delta(n.counter as nat, delta as nat) as u64;
                    Ok((
                        used(NodeView { counter: total, ..n }, 1 + dests.len()),
                        answer_and_send(n, m, PayloadView::AddOk, dests, PayloadView::Add { delta }),
                    ))
                }
            },
            _ => ignore,
        }
    }
}

proof fn lemma_next_id_succ(start: u64, k: nat)
    ensures
        (if next_id(start, k) == u64::MAX { 0 } else { next_id(start, k) + 1 }) == next_id(start, k + 1),
{
    lemma_add_mod_noop(start + k, 1, id_space());
}

proof fn lemma_next_id_add(start: u64, j: nat, i: nat)
    ensures
        next_id(next_id(start, j), i) == next_id(start, j + i),
{
    let b = next_id(start, j);
    lemma_add_mod_noop(start + j, i as int, id_space());
    lemma_add_mod_noop(b as int, i as int, id_space());
    lemma_small_mod(b as nat, id_space() as nat);
}

/// A node process's state: identity, roster, and the engines it owns.
pub struct Node {
    role: Role,
    ready: bool,
    id: String,
    peers: Vec<String>,
    next_msg_id: u64,
    sequence: u64,
    seen: SeenSet,
    topology: Topology,
    counter: GCounter,
}

impl View for Node {
    type V = NodeView;

    closed spec fn view(&self) -> NodeView {
        NodeView {
            role: self.role,
            ready: self.ready,
            id: self.id@,
            peers: ids_view(self.peers@),
            next_msg_id: self.next_msg_id,
            sequence: self.sequence,
            seen: self.seen@,
            topology: self.topology@,
            counter: self.counter.value,
        }
    }
}

/// What a flood or a replication carries.
pub open spec fn gossip(value: u64, add: bool) -> PayloadView {
    if add { PayloadView::Add { delta: value } } else { PayloadView::Broadcast { message: value } }
}

fn gossip_payload(value: u64, add: bool) -> (r: Payload)
    ensures
        r@ == gossip(value, add),
{
    if add { Payload::Add { delta: value } } else { Payload::Broadcast { message: value } }
}

impl Node {
    /// The seen-set holds no value twice.
    pub closed spec fn wf(&self) -> bool {
        self.seen.wf()
    }

    /// A node of `role` that has not had its handshake yet.
    pub fn new(role: Role) -> (r: Node)
        ensures
            r.wf(),
            r@ == (NodeView {
                role,
                ready: false,
                id: Seq::empty(),
                peers: Seq::empty(),
                next_msg_id: 0,
                sequence: 0,
                seen: Seq::empty(),
                topology: Seq::empty(),
                counter: 0,
            }),
    {
        let r = Node {
            role,
            ready: false,
            id: String::new(),
            peers: Vec::new(),
            next_msg_id: 0,
            sequence: 0,
            seen: SeenSet::new(),
            topology: Topology::new(),
            counter: GCounter::new(),
        };
        assert(ids_view(r.peers@) == Seq::<Seq<char>>::empty());
        r
    }

    fn fresh_id(&mut self) -> (r: u64)
        ensures
            r == old(self).next_msg_id,
            final(self)@ == used(old(self)@, 1),
            final(self).wf() == old(self).wf(),
    {
        let r = self.next_msg_id;
        proof { lemma_next_id_succ(r, 0); }
        self.next_msg_id = if r == u64::MAX { 0 } else { r + 1 };
        r
    }

    /// The reply to a message from `src` numbered `msg_id`, carrying `payload`.
    fn reply_to(&mut self, src: &String, msg_id: Option<u64>, payload: Payload) -> (r: Message)
        ensures
            r@ == (MessageView {
                src: old(self)@.id,
                dest: src@,
                msg_id: Some(old(self)@.next_msg_id),
                in_reply_to: msg_id,
                payload: payload@,
            }),
            final(self)@ == used(old(self)@, 1),
            final(self).wf() == old(self).wf(),
    {
        let id = self.fresh_id();
        Message::new(self.id.clone(), src.clone(), Some(id), msg_id, payload)
    }

    /// Appends one fresh message to each of `dests`, carrying `value` as an
    /// `add` or as a `broadcast`.
    fn send_to_all(&mut self, out: &mut Vec<Message>, dests: &Vec<String>, value: u64, add: bool)
        ensures
            messages_view(final(out)@) == messages_view(old(out)@) + sends(
                old(self)@,
                ids_view(dests@),
                gossip(value, add),
            ),
            final(self)@ == used(old(self)@, dests@.len()),
            final(self).wf() == old(self).wf(),
    {
        let ghost n0 = self@;
        let ghost out0 = out@;
        let ghost p = gossip(value, add);
        let mut i: usize = 0;
        proof { lemma_next_id_add(n0.next_msg_id, 0, 0); }
        assert(messages_view(out@) == messages_view(out0) + sends(n0, ids_view(dests@).take(0), p));
        while i < dests.len()
            invariant
                i <= dests@.len(),
                p == gossip(value, add),
                self@ == used(n0, i as nat),
                self.wf() == old(self).wf(),
                messages_view(out@) == messages_view(out0) + sends(n0, ids_view(dests@).take(i as int), p),
            decreases dests@.len() - i,
        {
            let ghost before = out@;
            let id = self.fresh_id();
            proof {
                lemma_next_id_add(n0.next_msg_id, i as nat, 1);
                lemma_next_id_add(n0.next_msg_id, 0, i as nat);
            }
            let payload = gossip_payload(value, add);
            let msg = Message::new(self.id.clone(), dests[i].clone(), Some(id), None, payload);
            out.push(msg);
            assert(messages_view(out@) == messages_view(before).push(msg@));
            assert(ids_view(dests@).take(i + 1) == ids_view(dests@).take(i as int).push(dests@[i as int]@));
            assert(sends(n0, ids_view(dests@).take(i + 1), p) =~= sends(n0, ids_view(dests@).take(i as int), p).push(msg@));
            i = i + 1;
        }
        assert(ids_view(dests@).take(dests@.len() as int) == ids_view(dests@));
    }

    pub fn role(&self) -> (r: Role)
        ensures
            r == self@.role,
    {
        self.role
    }

    /// Whether the handshake has happened.
    pub fn is_ready(&self) -> (r: bool)
        ensures
            r == self@.ready,
    {
        self.ready
    }

    pub fn node_id(&self) -> (r: &String)
        ensures
            r@ == self@.id,
    {
        &self.id
    }

    /// The accumulator of the grow-only counter.
    pub fn counter_value(&self) -> (r: u64)
        ensures
            r == self@.counter,
    {
        self.counter.value
    }

    /// Every broadcast value seen, in order of first receipt.
    pub fn seen_values(&self) -> (r: Vec<u64>)
        ensures
            r@ == self@.seen,
    {
        self.seen.to_vec()
    }

    /// Handles one inbound message: updates the node and returns, in order,
    /// every message it sends in response; or the protocol failure that stops
    /// the node, leaving it unchanged.
    pub fn handle(&mut self, m: Message) -> (r: Result<Vec<Message>, ProtocolError>)
        requires
            old(self).wf(),
        ensures
            final(self).wf(),
            match r {
                Ok(out) => step(old(self)@, m@) == Ok::<(NodeView, Seq<MessageView>), ProtocolError>(
                    (final(self)@, messages_view(out@)),
                ),
                Err(e) => step(old(self)@, m@) == Err::<(NodeView, Seq<MessageView>), ProtocolError>(e)
                    && final(self)@ == old(self)@,
            },
    {
        let ghost n = self@;
        let ghost mv = m@;
        let GenericMessage { src, dest: _, body: GenericBody { msg_id, in_reply_to: _, payload } } = m;
        let mut out: Vec<Message> = Vec::new();
        if !self.ready {
            match payload {
                Payload::Init { node_id, node_ids } => {
                    self.id = node_id;
                    self.peers = node_ids;
                    self.ready = true;
                    let msg = self.reply_to(&src, msg_id, Payload::InitOk);
                    out.push(msg);
                    assert(messages_view(out@) =~= seq![msg@]);
                    return Ok(out);
                },
                _ => {
                    return Err(ProtocolError::NotInitialized);
                },
            }
        }
        let is_generator = self.role.handles_generate();
        let is_broadcaster = self.role.handles_broadcast();
        let is_flooder = self.role.handles_flooding();
        let is_counter = self.role.handles_counter();
        match payload {
            Payload::Init { .. } => {
                return Err(ProtocolError::AlreadyInitialized);
            },
            Payload::Echo { echo } => {
                let msg = self.reply_to(&src, msg_id, Payload::EchoOk { echo });
                out.push(msg);
                assert(messages_view(out@) =~= seq![msg@]);
            },
            Payload::Generate => {
                if is_generator {
                    if self.sequence == u64::MAX {
                        return Err(ProtocolError::SequenceExhausted);
                    }
                    self.sequence = self.sequence + 1;
                    let mut id = self.id.clone();
                    proof { reveal_strlit("-"); }
                    id.append("-");
                    assert(id@ == n.id + seq!['-']);
                    push_decimal(&mut id, self.sequence);
                    assert(id@ == generated_id(n.id, self.sequence as nat));
                    let msg = self.reply_to(&src, msg_id, Payload::GenerateOk { id });
                    out.push(msg);
                    assert(messages_view(out@) =~= seq![msg@]);
                }
            },
            Payload::Broadcast { message } => {
                if is_broadcaster {
                    let dests = if is_flooder {
                        self.topology.flood_targets(&self.id, &src)
                    } else {
                        Vec::new()
                    };
                    if self.seen.insert(message) {
                        let msg = self.reply_to(&src, msg_id, Payload::BroadcastOk);
                        out.push(msg);
                        assert(messages_view(out@) =~= seq![msg@]);
                        self.send_to_all(&mut out, &dests, message, false);
                        proof { lemma_next_id_add(n.next_msg_id, 1, dests@.len()); }
                    } else {
                        let msg = self.reply_to(&src, msg_id, Payload::BroadcastOk);
                        out.push(msg);
                        assert(messages_view(out@) =~= seq![msg@]);
                    }
                }
            },
            Payload::Read => {
                if is_counter {
                    let msg = self.reply_to(&src, msg_id, Payload::ReadValueOk { value: self.counter.value });
                    out.push(msg);
                    assert(messages_view(out@) =~= seq![msg@]);
                } else if is_broadcaster {
                    let messages = self.seen.to_vec();
                    let msg = self.reply_to(&src, msg_id, Payload::ReadOk { messages });
                    out.push(msg);
                    assert(messages_view(out@) =~= seq![msg@]);
                }
            },
            Payload::Topology { topology } => {
                if is_flooder {
                    self.topology.replace(topology);
                }
                if is_broadcaster {
                    let msg = self.reply_to(&src, msg_id, Payload::TopologyOk);
                    out.push(msg);
                    assert(messages_view(out@) =~= seq![msg@]);
                }
            },
            Payload::Add { delta } => {
                if is_counter {
                    self.counter.add(delta);
                    let msg = self.reply_to(&src, msg_id, Payload::AddOk);
                    out.push(msg);
                    assert(messages_view(out@) =~= seq![msg@]);
                    let dests = if is_client(&src) {
                        others_of(&self.peers, &self.id)
                    } else {
                        Vec::new()
                    };
                    self.send_to_all(&mut out, &dests, delta, true);
                    proof { lemma_next_id_add(n.next_msg_id, 1, dests@.len()); }
                }
            },
            _ => {},
        }
        assert(out@.len() == 0 ==> messages_view(out@) =~= Seq::<MessageView>::empty());
        Ok(out)
    }
}

/// Whether `src` names a client rather than a replica.
pub fn is_client(src: &String) -> (r: bool)
    ensures
        r == is_client_id(src@),
{
    let s = src.as_str();
    s.unicode_len() > 0 && s.get_char(0) == 'c'
}

} // verus!
