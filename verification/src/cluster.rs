use vstd::prelude::*;
use crate::broadcast::{after_message, initial, rejection, tick_sends, NodeView, PayloadView};
use crate::message::MessageView;

verus! {

/// A cluster of broadcast nodes, by name, together with the gossip that has
/// been sent and has neither arrived nor been lost.
pub struct Cluster {
    pub nodes: Map<Seq<char>, NodeView>,
    pub wire: Set<MessageView<PayloadView>>,
}

/// One thing that happens in a cluster.
pub enum Move {
    /// A client's request reaches the node `at`. Clients do not gossip.
    Request { at: Seq<char>, request: MessageView<PayloadView> },
    /// The node `at` gossips, and `sent` goes on the wire.
    Tick { at: Seq<char>, sent: Seq<MessageView<PayloadView>> },
    /// An envelope on the wire reaches the node it is addressed to.
    Deliver { envelope: MessageView<PayloadView> },
    /// An envelope on the wire is lost.
    Lose { envelope: MessageView<PayloadView> },
}

/// Whether `step` takes the cluster from `before` to `after`. A node handles
/// what reaches it as `after_message` says and gossips as `tick_sends`
/// allows; a node that refuses an event, or has run out of message ids,
/// takes no further part.
pub open spec fn next(before: Cluster, step: Move, after: Cluster) -> bool {
    match step {
        Move::Request { at, request } => {
            &&& before.nodes.contains_key(at)
            &&& before.nodes[at].next_id < u64::MAX
            &&& !(request.payload is Gossip)
            &&& rejection(before.nodes[at], request) is None
            &&& after.nodes == before.nodes.insert(at, after_message(before.nodes[at], request))
            &&& after.wire == before.wire
        },
        Move::Tick { at, sent } => {
            &&& before.nodes.contains_key(at)
            &&& tick_sends(before.nodes[at], sent)
            &&& after.nodes == before.nodes
            &&& after.wire == before.wire.union(sent.to_set())
        },
        Move::Deliver { envelope } => {
            &&& before.wire.contains(envelope)
            &&& before.nodes.contains_key(envelope.dst)
            &&& before.nodes[envelope.dst].next_id < u64::MAX
            &&& rejection(before.nodes[envelope.dst], envelope) is None
            &&& after.nodes == before.nodes.insert(
                envelope.dst,
                after_message(before.nodes[envelope.dst], envelope),
            )
            &&& after.wire == before.wire.remove(envelope)
        },
        Move::Lose { envelope } => {
            &&& after.nodes == before.nodes
            &&& after.wire == before.wire.remove(envelope)
        },
    }
}

/// What node `a` believes of node `b` is true: `b` has every value that `a`
/// has noted as known to it.
pub open spec fn belief_holds(c: Cluster, a: Seq<char>, b: Seq<char>) -> bool {
    c.nodes.contains_key(a) && c.nodes.contains_key(b) && c.nodes[a].known.contains_key(b)
        ==> c.nodes[a].known[b].subset_of(c.nodes[b].messages)
}

/// An envelope on the wire is gossip from a node of the cluster and holds
/// only values that its sender has.
pub open spec fn envelope_holds(c: Cluster, e: MessageView<PayloadView>) -> bool {
    c.wire.contains(e) ==> {
        &&& e.payload matches PayloadView::Gossip { seen }
        &&& c.nodes.contains_key(e.src)
        &&& seen.subset_of(c.nodes[e.src].messages)
    }
}

/// The invariant of a cluster: every node goes by its own name, every
/// belief of one node about another holds, and so does every envelope on
/// the wire.
pub open spec fn sound(c: Cluster) -> bool {
    &&& forall|a: Seq<char>| c.nodes.contains_key(a) ==> (#[trigger] c.nodes[a]).node == a
    &&& forall|a: Seq<char>, b: Seq<char>| #[trigger] belief_holds(c, a, b)
    &&& forall|e: MessageView<PayloadView>| #[trigger] envelope_holds(c, e)
}

/// A cluster just started: the nodes go by their names, have noted nothing
/// as known to anyone, and the wire is empty.
pub open spec fn fresh(c: Cluster) -> bool {
    &&& forall|a: Seq<char>| c.nodes.contains_key(a) ==> (#[trigger] c.nodes[a]).node == a
    &&& forall|a: Seq<char>, b: Seq<char>|
        c.nodes.contains_key(a) && (#[trigger] c.nodes[a].known.contains_key(b))
            ==> c.nodes[a].known[b] == Set::<u64>::empty()
    &&& c.wire == Set::<MessageView<PayloadView>>::empty()
}

/// A history: the states a cluster goes through and the steps between them.
pub open spec fn is_run(states: Seq<Cluster>, steps: Seq<Move>) -> bool {
    &&& states.len() == steps.len() + 1
    &&& forall|k: int| 0 <= k < steps.len() ==> next(states[k], #[trigger] steps[k], states[k + 1])
}

/// The values that node `name` has at state `at` of a history.
pub open spec fn learned(states: Seq<Cluster>, at: int, name: Seq<char>) -> Set<u64> {
    states[at].nodes[name].messages
}

/// A relay of gossip along `path`: for each hop, the node at its near end
/// gossips at step `ticks[hop]`, and the envelope which that round addresses
/// to the node at its far end arrives at the later step `arrivals[hop]`,
/// before the next hop's tick. Whatever else happens in between, to these or
/// to other envelopes, is of no account.
pub open spec fn relays(
    steps: Seq<Move>,
    path: Seq<Seq<char>>,
    ticks: Seq<int>,
    arrivals: Seq<int>,
) -> bool {
    &&& path.len() == ticks.len() + 1
    &&& arrivals.len() == ticks.len()
    &&& forall|hop: int|
        0 <= hop < ticks.len() ==> {
            &&& 0 <= #[trigger] ticks[hop] < arrivals[hop] < steps.len()
            &&& hop > 0 ==> arrivals[hop - 1] < ticks[hop]
            &&& steps[ticks[hop]] matches Move::Tick { at, sent }
            &&& at == path[hop]
            &&& steps[arrivals[hop]] matches Move::Deliver { envelope }
            &&& envelope.dst == path[hop + 1]
            &&& sent.contains(envelope)
        }
}

/// A fresh cluster is sound.
pub proof fn lemma_fresh_is_sound(c: Cluster)
    requires
        fresh(c),
    ensures
        sound(c),
{
    assert forall|a: Seq<char>, b: Seq<char>| #[trigger] belief_holds(c, a, b) by {
        if c.nodes.contains_key(a) && c.nodes[a].known.contains_key(b) {
            assert(c.nodes[a].known[b] == Set::<u64>::empty());
        }
    }
}

/// A cluster whose nodes all come straight from the handshake, with nothing
/// on the wire, is fresh.
pub proof fn lemma_initial_is_fresh(c: Cluster, members: Seq<Seq<char>>)
    requires
        forall|a: Seq<char>| c.nodes.contains_key(a) ==> #[trigger] c.nodes[a] == initial(a, members),
        c.wire == Set::<MessageView<PayloadView>>::empty(),
    ensures
        fresh(c),
{
}

/// A step keeps the nodes that there are, and no node forgets a value.
pub proof fn lemma_step_grows(before: Cluster, step: Move, after: Cluster, name: Seq<char>)
    requires
        next(before, step, after),
    ensures
        after.nodes.contains_key(name) == before.nodes.contains_key(name),
        before.nodes.contains_key(name) ==> before.nodes[name].messages.subset_of(
            after.nodes[name].messages,
        ),
        before.nodes.contains_key(name) ==> after.nodes[name].node == before.nodes[name].node,
{
}

/// A step of a sound cluster leaves it sound.
pub proof fn lemma_step_keeps_sound(before: Cluster, step: Move, after: Cluster)
    requires
        sound(before),
        next(before, step, after),
    ensures
        sound(after),
{
    assert forall|a: Seq<char>| after.nodes.contains_key(a) implies (#[trigger] after.nodes[a]).node
        == a by {
        lemma_step_grows(before, step, after, a);
        assert(before.nodes[a].node == a);
    }
    assert forall|a: Seq<char>, b: Seq<char>| #[trigger] belief_holds(after, a, b) by {
        lemma_step_grows(before, step, after, a);
        lemma_step_grows(before, step, after, b);
        assert(belief_holds(before, a, b));
        if after.nodes.contains_key(a) && after.nodes.contains_key(b)
            && after.nodes[a].known.contains_key(b) {
            match step {
                Move::Deliver { envelope } => {
                    assert(envelope_holds(before, envelope));
                    if a == envelope.dst && b == envelope.src {
                        lemma_step_grows(before, step, after, envelope.src);
                    }
                },
                _ => {},
            }
        }
    }
    assert forall|e: MessageView<PayloadView>| #[trigger] envelope_holds(after, e) by {
        if after.wire.contains(e) {
            if before.wire.contains(e) {
                assert(envelope_holds(before, e));
                lemma_step_grows(before, step, after, e.src);
            } else {
                match step {
                    Move::Tick { at, sent } => {
                        let i = choose|i: int| 0 <= i < sent.len() && sent[i] == e;
                        assert(sent[i] == e);
                        assert(before.nodes[at].node == at);
                    },
                    _ => {},
                }
            }
        }
    }
}

/// Along a history that starts sound, every state is sound, the nodes stay
/// the same, and what a node has at one point it has at every later one.
pub proof fn lemma_run_grows(
    states: Seq<Cluster>,
    steps: Seq<Move>,
    i: int,
    j: int,
    name: Seq<char>,
)
    requires
        is_run(states, steps),
        sound(states[0]),
        0 <= i <= j < states.len(),
    ensures
        sound(states[i]),
        sound(states[j]),
        states[j].nodes.contains_key(name) == states[i].nodes.contains_key(name),
        states[i].nodes.contains_key(name) ==> learned(states, i, name).subset_of(
            learned(states, j, name),
        ),
    decreases j, i,
{
    if i < j {
        lemma_run_grows(states, steps, i, j - 1, name);
        lemma_step_keeps_sound(states[j - 1], steps[j - 1], states[j]);
        lemma_step_grows(states[j - 1], steps[j - 1], states[j], name);
    } else if j > 0 {
        lemma_run_grows(states, steps, 0, j, name);
    }
}

/// One hop. A node gossips; the envelope which that round addresses to one
/// of its neighbours arrives there later. From then on the neighbour has
/// every value that the node had when it gossiped: what the envelope leaves
/// out is what the node believed the neighbour to have, and in a sound
/// cluster the neighbour had it.
pub proof fn lemma_hop(states: Seq<Cluster>, steps: Seq<Move>, tick: int, arrival: int)
    requires
        is_run(states, steps),
        sound(states[0]),
        0 <= tick < arrival < steps.len(),
        steps[tick] matches Move::Tick { at, sent } && steps[arrival] matches Move::Deliver {
            envelope,
        } && sent.contains(envelope),
    ensures
        steps[tick] matches Move::Tick { at, sent } && steps[arrival] matches Move::Deliver {
            envelope,
        } && states[arrival + 1].nodes.contains_key(envelope.dst) && learned(
            states,
            tick,
            at,
        ).subset_of(learned(states, arrival + 1, envelope.dst)),
{
    let at = steps[tick]->Tick_at;
    let sent = steps[tick]->sent;
    let envelope = steps[arrival]->Deliver_envelope;
    let to = envelope.dst;
    let sender = states[tick].nodes[at];
    assert(next(states[tick], steps[tick], states[tick + 1]));
    assert(next(states[arrival], steps[arrival], states[arrival + 1]));
    lemma_run_grows(states, steps, tick, arrival, to);
    lemma_run_grows(states, steps, tick, tick, at);
    let i = choose|i: int| 0 <= i < sent.len() && sent[i] == envelope;
    assert(sent[i] == envelope);
    assert(sender.neighborhood[i] == to);
    assert(belief_holds(states[tick], at, to));
    let seen = envelope.payload->Gossip_seen;
    assert forall|v: u64| learned(states, tick, at).contains(v) implies learned(
        states,
        arrival + 1,
        to,
    ).contains(v) by {
        if sender.known[to].contains(v) {
            assert(learned(states, tick, to).contains(v));
            assert(learned(states, arrival, to).contains(v));
        } else {
            assert(sender.messages.difference(sender.known[to]).contains(v));
            assert(seen.contains(v));
        }
    }
}

/// After the first `hops` hops of a relay, the node that far along the path
/// has every value that the first node had at `start`.
proof fn lemma_relay_reaches(
    states: Seq<Cluster>,
    steps: Seq<Move>,
    path: Seq<Seq<char>>,
    ticks: Seq<int>,
    arrivals: Seq<int>,
    start: int,
    hops: int,
)
    requires
        is_run(states, steps),
        sound(states[0]),
        relays(steps, path, ticks, arrivals),
        0 <= start < states.len(),
        ticks.len() > 0 ==> start <= ticks[0],
        states[start].nodes.contains_key(path[0]),
        0 <= hops <= ticks.len(),
    ensures
        ({
            let at = if hops == 0 {
                start
            } else {
                arrivals[hops - 1] + 1
            };
            &&& 0 <= at < states.len()
            &&& states[at].nodes.contains_key(path[hops])
            &&& learned(states, start, path[0]).subset_of(learned(states, at, path[hops]))
        }),
    decreases hops,
{
    if hops > 0 {
        let hop = hops - 1;
        lemma_relay_reaches(states, steps, path, ticks, arrivals, start, hop);
        let before = if hop == 0 {
            start
        } else {
            arrivals[hop - 1] + 1
        };
        assert(0 <= ticks[hop] < arrivals[hop] < steps.len());
        lemma_run_grows(states, steps, before, ticks[hop], path[hop]);
        lemma_hop(states, steps, ticks[hop], arrivals[hop]);
    }
}

/// Convergence along a path. Take any history of a cluster that starts
/// sound, and any path of nodes. If gossip is relayed along the path, one
/// tick and one arrival for each hop, then at the end of the history the
/// last node of the path has every value that the first node had when the
/// relay began. Nothing is asked of the other envelopes: any of them may be
/// lost or delayed. So in a connected graph a value
/// broadcast at one node reaches every node within as many gossip ticks as
/// the path to it has hops, provided that for each hop one envelope gets
/// through at last.
pub proof fn lemma_relay_converges(
    states: Seq<Cluster>,
    steps: Seq<Move>,
    path: Seq<Seq<char>>,
    ticks: Seq<int>,
    arrivals: Seq<int>,
    start: int,
)
    requires
        is_run(states, steps),
        sound(states[0]),
        relays(steps, path, ticks, arrivals),
        0 <= start < states.len(),
        ticks.len() > 0 ==> start <= ticks[0],
        states[start].nodes.contains_key(path[0]),
    ensures
        states.last().nodes.contains_key(path.last()),
        learned(states, start, path[0]).subset_of(
            learned(states, states.len() - 1, path.last()),
        ),
{
    let hops = ticks.len() as int;
    lemma_relay_reaches(states, steps, path, ticks, arrivals, start, hops);
    let at = if hops == 0 {
        start
    } else {
        arrivals[hops - 1] + 1
    };
    lemma_run_grows(states, steps, at, states.len() - 1, path.last());
}

} // verus!
