use vstd::prelude::*;
use vstd::seq_lib::{commutative_foldl, lemma_fold_left_permutation};
use crate::counter::{COUNTER_MAX, add_delta};
use crate::message::{MessageView, PayloadView, ProtocolError};
use crate::node::{NodeView, Role, is_client_id, reply, step};
use crate::topology::{lemma_others_contains, neighbors, others};

verus! {

/// A broadcast value delivered a second time changes nothing but the message
/// ids used: the seen-set stays as the first delivery left it, nothing is
/// forwarded, and the sender is still acknowledged.
pub proof fn lemma_broadcast_idempotent(n: NodeView, first: MessageView, again: MessageView, v: u64)
    requires
        n.ready,
        n.role.broadcasts(),
        first.payload == (PayloadView::Broadcast { message: v }),
        again.payload == (PayloadView::Broadcast { message: v }),
    ensures
        step(n, first) is Ok,
        step(n, first)->Ok_0.0.seen.to_set() == n.seen.to_set().insert(v),
        step(step(n, first)->Ok_0.0, again) is Ok,
        step(step(n, first)->Ok_0.0, again)->Ok_0.0.seen == step(n, first)->Ok_0.0.seen,
        step(step(n, first)->Ok_0.0, again)->Ok_0.1
            == seq![reply(step(n, first)->Ok_0.0, again, PayloadView::BroadcastOk)],
{
    let n1 = step(n, first)->Ok_0.0;
    if !n.seen.contains(v) {
        assert(n1.seen == n.seen.push(v));
        assert(n1.seen[n.seen.len() as int] == v);
        assert(n1.seen.contains(v));
        assert(n.seen.push(v).to_set() =~= n.seen.to_set().insert(v)) by {
            assert forall|x: u64| n.seen.push(v).contains(x) <==> (n.seen.contains(x) || x == v) by {
                if n.seen.push(v).contains(x) && x != v {
                    let j = choose|j: int| 0 <= j < n.seen.push(v).len() && n.seen.push(v)[j] == x;
                    assert(n.seen[j] == x);
                }
                if n.seen.contains(x) {
                    let j = choose|j: int| 0 <= j < n.seen.len() && n.seen[j] == x;
                    assert(n.seen.push(v)[j] == x);
                }
            }
        }
    } else {
        assert(n.seen.to_set() =~= n.seen.to_set().insert(v));
    }
}

/// Before its handshake a node accepts only `init`: anything else stops it,
/// and it sends nothing.
pub proof fn lemma_handshake_first(n: NodeView, m: MessageView)
    requires
        !n.ready,
        !(m.payload is Init),
    ensures
        step(n, m) == Err::<(NodeView, Seq<MessageView>), ProtocolError>(ProtocolError::NotInitialized),
{
}

/// A second `init` stops a node that has had its handshake.
pub proof fn lemma_no_second_init(n: NodeView, m: MessageView)
    requires
        n.ready,
        m.payload is Init,
    ensures
        step(n, m) == Err::<(NodeView, Seq<MessageView>), ProtocolError>(ProtocolError::AlreadyInitialized),
{
}

/// A delta from a client is applied locally and replicated once to every
/// other replica of the roster, and to nothing else; a delta from a replica
/// is applied and not replicated again.
pub proof fn lemma_add_replication(n: NodeView, m: MessageView, delta: u64, p: Seq<char>)
    requires
        n.ready,
        n.role == Role::GCounter,
        m.payload == (PayloadView::Add { delta }),
    ensures
        step(n, m) is Ok,
        step(n, m)->Ok_0.0.counter as nat == add_delta(n.counter as nat, delta as nat),
        !is_client_id(m.src) ==> step(n, m)->Ok_0.1.len() == 1,
        is_client_id(m.src) ==> step(n, m)->Ok_0.1.len() == 1 + others(n.peers, n.id).len(),
        is_client_id(m.src) ==> (
            (exists|j: int| 1 <= j < step(n, m)->Ok_0.1.len() && #[trigger] step(n, m)->Ok_0.1[j].dest == p)
                <==> (n.peers.contains(p) && p != n.id)),
        forall|j: int| 1 <= j < step(n, m)->Ok_0.1.len() ==>
            (#[trigger] step(n, m)->Ok_0.1[j]).payload == (PayloadView::Add { delta }),
{
    lemma_others_contains(n.peers, n.id, p);
    let out = step(n, m)->Ok_0.1;
    let o = others(n.peers, n.id);
    if is_client_id(m.src) {
        if n.peers.contains(p) && p != n.id {
            let k = choose|k: int| 0 <= k < o.len() && o[k] == p;
            assert(out[k + 1].dest == p);
        }
        if exists|j: int| 1 <= j < out.len() && #[trigger] out[j].dest == p {
            let j = choose|j: int| 1 <= j < out.len() && #[trigger] out[j].dest == p;
            assert(o[j - 1] == p);
        }
    }
}

/// Delivers `ms` to `n` in order, a message that stops the node leaving it as
/// it was.
pub open spec fn run(n: NodeView, ms: Seq<MessageView>) -> NodeView
    decreases ms.len(),
{
    if ms.len() == 0 {
        n
    } else {
        let before = run(n, ms.drop_last());
        match step(before, ms.last()) {
            Ok((after, _)) => after,
            Err(_) => before,
        }
    }
}

pub open spec fn all_adds(ms: Seq<MessageView>) -> bool {
    forall|i: int| 0 <= i < ms.len() ==> #[trigger] ms[i].payload is Add
}

/// The deltas that `ms` carry.
pub open spec fn deltas(ms: Seq<MessageView>) -> Seq<nat> {
    ms.map_values(|m: MessageView| m.payload->Add_delta as nat)
}

pub open spec fn sum(ds: Seq<nat>) -> nat {
    ds.fold_left(0nat, |t: nat, d: nat| t + d)
}

pub open spec fn capped_sum(start: nat, ds: Seq<nat>) -> nat {
    ds.fold_left(start, |t: nat, d: nat| add_delta(t, d))
}

proof fn lemma_run_adds(n: NodeView, ms: Seq<MessageView>)
    requires
        n.ready,
        n.role == Role::GCounter,
        all_adds(ms),
    ensures
        run(n, ms).ready,
        run(n, ms).role == Role::GCounter,
        run(n, ms).counter as nat == capped_sum(n.counter as nat, deltas(ms)),
    decreases ms.len(),
{
    if ms.len() > 0 {
        let init = ms.drop_last();
        assert(all_adds(init)) by {
            assert forall|i: int| 0 <= i < init.len() implies #[trigger] init[i].payload is Add by {
                assert(init[i] == ms[i]);
            }
        }
        lemma_run_adds(n, init);
        assert(ms.last().payload is Add);
        assert(deltas(ms).drop_last() =~= deltas(init));
    }
}

proof fn lemma_capped_sum(start: nat, ds: Seq<nat>)
    requires
        start <= COUNTER_MAX,
    ensures
        capped_sum(start, ds) == (if start + sum(ds) > COUNTER_MAX as nat { COUNTER_MAX as nat } else { start + sum(ds) }),
    decreases ds.len(),
{
    if ds.len() > 0 {
        lemma_capped_sum(start, ds.drop_last());
        assert(sum(ds) == sum(ds.drop_last()) + ds.last());
    }
}

/// Grow-only counter convergence: two replicas that start from zero and are
/// handed the same deltas, in any order, hold the same total; while the sum
/// of the deltas fits in the accumulator, that total is the sum.
pub proof fn lemma_counter_converges(a: NodeView, b: NodeView, ma: Seq<MessageView>, mb: Seq<MessageView>)
    requires
        a.ready,
        b.ready,
        a.role == Role::GCounter,
        b.role == Role::GCounter,
        a.counter == 0,
        b.counter == 0,
        all_adds(ma),
        all_adds(mb),
        deltas(ma).to_multiset() == deltas(mb).to_multiset(),
    ensures
        run(a, ma).counter == run(b, mb).counter,
        sum(deltas(ma)) <= COUNTER_MAX ==> run(a, ma).counter as nat == sum(deltas(ma)),
{
    lemma_run_adds(a, ma);
    lemma_run_adds(b, mb);
    let f = |t: nat, d: nat| add_delta(t, d);
    assert(commutative_foldl(f));
    lemma_fold_left_permutation(deltas(ma), deltas(mb), f, 0nat);
    lemma_capped_sum(0, deltas(ma));
}

/// A flood of one value through a cluster whose nodes share the topology:
/// the nodes that hold the value, and the forwarded copies still in flight,
/// each as (sender, destination).
pub struct Flood {
    pub has: Set<Seq<char>>,
    pub pending: Seq<(Seq<char>, Seq<char>)>,
}

/// The copies that node `d`, seeing the value for the first time from `s`,
/// forwards: one to each neighbour but the sender, as the node's `step` does.
pub open spec fn forwards(topo: Seq<(Seq<char>, Seq<Seq<char>>)>, d: Seq<char>, s: Seq<char>) -> Seq<(Seq<char>, Seq<char>)> {
    others(neighbors(topo, d), s).map_values(|x: Seq<char>| (d, x))
}

/// What a node sends on first sight of a broadcast value, after its
/// acknowledgement, is one copy of the value to each destination that
/// `forwards` names, in that order.
pub proof fn lemma_step_forwards(n: NodeView, m: MessageView, v: u64)
    requires
        n.ready,
        n.role.floods(),
        m.payload == (PayloadView::Broadcast { message: v }),
        !n.seen.contains(v),
    ensures
        step(n, m) is Ok,
        step(n, m)->Ok_0.1.len() == 1 + forwards(n.topology, n.id, m.src).len(),
        forall|j: int| 0 <= j < forwards(n.topology, n.id, m.src).len() ==> {
            let o = #[trigger] step(n, m)->Ok_0.1[j + 1];
            &&& (o.src, o.dest) == forwards(n.topology, n.id, m.src)[j]
            &&& o.payload == (PayloadView::Broadcast { message: v })
            &&& o.in_reply_to is None
        },
{
}

/// Node `a` receives the value from client `c`.
pub open spec fn flood_start(topo: Seq<(Seq<char>, Seq<Seq<char>>)>, a: Seq<char>, c: Seq<char>) -> Flood {
    Flood { has: set![a], pending: forwards(topo, a, c) }
}

/// The copy `i` in flight arrives: a node that already holds the value does
/// nothing more, any other records it and forwards it.
pub open spec fn deliver(topo: Seq<(Seq<char>, Seq<Seq<char>>)>, f: Flood, i: int) -> Flood {
    let (s, d) = f.pending[i];
    let rest = f.pending.remove(i);
    if f.has.contains(d) {
        Flood { has: f.has, pending: rest }
    } else {
        Flood { has: f.has.insert(d), pending: rest + forwards(topo, d, s) }
    }
}

pub open spec fn in_flight_to(f: Flood, y: Seq<char>) -> bool {
    exists|j: int| 0 <= j < f.pending.len() && #[trigger] f.pending[j].1 == y
}

/// Every copy in flight comes from a holder, and every neighbour of a holder
/// holds the value or has a copy on its way.
pub open spec fn flood_inv(topo: Seq<(Seq<char>, Seq<Seq<char>>)>, f: Flood) -> bool {
    &&& forall|j: int| 0 <= j < f.pending.len() ==> f.has.contains(#[trigger] f.pending[j].0)
    &&& forall|x: Seq<char>, y: Seq<char>|
        f.has.contains(x) && #[trigger] neighbors(topo, x).contains(y) ==> f.has.contains(y) || in_flight_to(f, y)
}

proof fn lemma_forwards(topo: Seq<(Seq<char>, Seq<Seq<char>>)>, d: Seq<char>, s: Seq<char>, y: Seq<char>)
    requires
        neighbors(topo, d).contains(y),
        y != s,
    ensures
        exists|j: int| 0 <= j < forwards(topo, d, s).len() && #[trigger] forwards(topo, d, s)[j] == (d, y),
{
    lemma_others_contains(neighbors(topo, d), s, y);
    let j = choose|j: int| 0 <= j < others(neighbors(topo, d), s).len() && others(neighbors(topo, d), s)[j] == y;
    assert(forwards(topo, d, s)[j] == (d, y));
}

/// The flood begins in a state that keeps the invariant, provided the client
/// that injects the value is not itself a neighbour of the node it asks.
pub proof fn lemma_flood_start(topo: Seq<(Seq<char>, Seq<Seq<char>>)>, a: Seq<char>, c: Seq<char>)
    requires
        !neighbors(topo, a).contains(c),
    ensures
        flood_inv(topo, flood_start(topo, a, c)),
{
    let f = flood_start(topo, a, c);
    assert forall|x: Seq<char>, y: Seq<char>|
        f.has.contains(x) && #[trigger] neighbors(topo, x).contains(y) implies f.has.contains(y) || in_flight_to(f, y) by {
        lemma_forwards(topo, a, c, y);
        let j = choose|j: int| 0 <= j < forwards(topo, a, c).len() && #[trigger] forwards(topo, a, c)[j] == (a, y);
        assert(f.pending[j].1 == y);
    }
}

/// Each arrival keeps the invariant, and no node loses the value.
pub proof fn lemma_flood_deliver(topo: Seq<(Seq<char>, Seq<Seq<char>>)>, f: Flood, i: int)
    requires
        flood_inv(topo, f),
        0 <= i < f.pending.len(),
    ensures
        flood_inv(topo, deliver(topo, f, i)),
        f.has.subset_of(deliver(topo, f, i).has),
{
    let (s, d) = f.pending[i];
    let rest = f.pending.remove(i);
    let g = deliver(topo, f, i);
    assert forall|j: int| 0 <= j < g.pending.len() implies g.has.contains(#[trigger] g.pending[j].0) by {
        if j < rest.len() {
            if j < i {
                assert(rest[j] == f.pending[j]);
            } else {
                assert(rest[j] == f.pending[j + 1]);
            }
        } else {
            assert(g.pending[j].0 == d);
        }
    }
    assert forall|x: Seq<char>, y: Seq<char>|
        g.has.contains(x) && #[trigger] neighbors(topo, x).contains(y) implies g.has.contains(y) || in_flight_to(g, y) by {
        if f.has.contains(x) {
            if !f.has.contains(y) && y != d {
                let j = choose|j: int| 0 <= j < f.pending.len() && #[trigger] f.pending[j].1 == y;
                let k = if j < i { j } else { j - 1 };
                assert(j != i);
                assert(rest[k] == f.pending[j]);
                assert(g.pending[k] == rest[k]);
                assert(g.pending[k].1 == y);
            }
        } else {
            assert(x == d);
            assert(f.has.contains(f.pending[i].0));
            if y != s && !g.has.contains(y) {
                lemma_forwards(topo, d, s, y);
                let j = choose|j: int| 0 <= j < forwards(topo, d, s).len() && #[trigger] forwards(topo, d, s)[j] == (d, y);
                assert(g.pending[rest.len() + j] == (d, y));
                assert(g.pending[rest.len() + j].1 == y);
            }
        }
    }
}

/// Every neighbour of a node of `nodes` is in `nodes`.
pub open spec fn closed_under(topo: Seq<(Seq<char>, Seq<Seq<char>>)>, nodes: Set<Seq<char>>) -> bool {
    forall|x: Seq<char>, y: Seq<char>| nodes.contains(x) && #[trigger] neighbors(topo, x).contains(y) ==> nodes.contains(y)
}

pub open spec fn pending_within(f: Flood, nodes: Set<Seq<char>>) -> bool {
    forall|j: int| 0 <= j < f.pending.len() ==> nodes.contains(#[trigger] f.pending[j].1)
}

/// The flood terminates: within a finite cluster whose topology leads
/// nowhere else, each arrival either hands the value to one more node, or
/// leaves the holders as they were with one copy fewer in flight.
pub proof fn lemma_flood_progress(topo: Seq<(Seq<char>, Seq<Seq<char>>)>, nodes: Set<Seq<char>>, f: Flood, i: int)
    requires
        nodes.finite(),
        closed_under(topo, nodes),
        pending_within(f, nodes),
        0 <= i < f.pending.len(),
    ensures
        pending_within(deliver(topo, f, i), nodes),
        nodes.difference(deliver(topo, f, i).has).len() < nodes.difference(f.has).len()
            || (deliver(topo, f, i).has == f.has && deliver(topo, f, i).pending.len() < f.pending.len()),
{
    let (s, d) = f.pending[i];
    let rest = f.pending.remove(i);
    let g = deliver(topo, f, i);
    assert(nodes.contains(f.pending[i].1));
    assert forall|j: int| 0 <= j < g.pending.len() implies nodes.contains(#[trigger] g.pending[j].1) by {
        if j < rest.len() {
            if j < i {
                assert(rest[j] == f.pending[j]);
            } else {
                assert(rest[j] == f.pending[j + 1]);
            }
        } else {
            let k = j - rest.len();
            let fw = forwards(topo, d, s);
            assert(g.pending[j] == fw[k]);
            let o = others(neighbors(topo, d), s);
            assert(fw[k].1 == o[k]);
            assert(o.contains(o[k]));
            lemma_others_contains(neighbors(topo, d), s, o[k]);
        }
    }
    if !f.has.contains(d) {
        assert(nodes.difference(f.has) == nodes.difference(g.has).insert(d));
        assert(nodes.difference(g.has).finite());
    }
}

/// `p` is a walk along the topology.
pub open spec fn is_path(topo: Seq<(Seq<char>, Seq<Seq<char>>)>, p: Seq<Seq<char>>) -> bool {
    &&& p.len() > 0
    &&& forall|i: int| 0 <= i < p.len() - 1 ==> #[trigger] neighbors(topo, p[i]).contains(p[i + 1])
}

/// Every node of `nodes` can be reached from every other along the topology.
pub open spec fn connected(topo: Seq<(Seq<char>, Seq<Seq<char>>)>, nodes: Set<Seq<char>>) -> bool {
    forall|a: Seq<char>, b: Seq<char>|
        nodes.contains(a) && nodes.contains(b) ==> exists|p: Seq<Seq<char>>|
            #[trigger] is_path(topo, p) && p[0] == a && p.last() == b
}

proof fn lemma_path_holds(topo: Seq<(Seq<char>, Seq<Seq<char>>)>, f: Flood, p: Seq<Seq<char>>, k: int)
    requires
        flood_inv(topo, f),
        f.pending.len() == 0,
        is_path(topo, p),
        f.has.contains(p[0]),
        0 <= k < p.len(),
    ensures
        f.has.contains(p[k]),
    decreases k,
{
    if k > 0 {
        lemma_path_holds(topo, f, p, k - 1);
        let i = k - 1;
        assert(neighbors(topo, p[i]).contains(p[i + 1]));
    }
}

/// Flood completeness: once no copy is in flight, every node connected to one
/// that holds the value holds it too.
pub proof fn lemma_flood_complete(topo: Seq<(Seq<char>, Seq<Seq<char>>)>, nodes: Set<Seq<char>>, f: Flood, a: Seq<char>)
    requires
        flood_inv(topo, f),
        f.pending.len() == 0,
        connected(topo, nodes),
        nodes.contains(a),
        f.has.contains(a),
    ensures
        nodes.subset_of(f.has),
{
    assert forall|b: Seq<char>| nodes.contains(b) implies f.has.contains(b) by {
        let p = choose|p: Seq<Seq<char>>| #[trigger] is_path(topo, p) && p[0] == a && p.last() == b;
        lemma_path_holds(topo, f, p, p.len() - 1);
    }
}

} // verus!
