use std::collections::HashSet;
use vstd::prelude::*;
use crate::error::NodeError;
use crate::gossip::{copy_set, extend_set, gossip_set, worth_sending};
use crate::known::KnownTable;
use crate::message::{notice_view, reply_view, views, Body, Event, Init, Message, MessageView};

verus! {

/// The message kinds of the broadcast protocol.
#[derive(Debug, PartialEq, Eq)]
pub enum Payload {
    Broadcast { message: u64 },
    BroadcastOk,
    Read,
    ReadOk { messages: HashSet<u64> },
    /// For each node named, its neighbours. Where a name occurs twice, the
    /// later entry counts.
    Topology { topology: Vec<(String, Vec<String>)> },
    TopologyOk,
    Gossip { seen: HashSet<u64> },
    GossipOk { seen: HashSet<u64> },
}

/// The model of a payload.
pub enum PayloadView {
    Broadcast { message: u64 },
    BroadcastOk,
    Read,
    ReadOk { messages: Set<u64> },
    Topology { topology: Map<Seq<char>, Seq<Seq<char>>> },
    TopologyOk,
    Gossip { seen: Set<u64> },
    GossipOk { seen: Set<u64> },
}

/// The graph that a list of topology entries describes.
pub open spec fn adjacency(entries: Seq<(String, Vec<String>)>) -> Map<Seq<char>, Seq<Seq<char>>>
    decreases entries.len(),
{
    if entries.len() == 0 {
        Map::empty()
    } else {
        adjacency(entries.drop_last()).insert(entries.last().0@, entries.last().1.deep_view())
    }
}

impl View for Payload {
    type V = PayloadView;

    open spec fn view(&self) -> PayloadView {
        match *self {
            Payload::Broadcast { message } => PayloadView::Broadcast { message },
            Payload::BroadcastOk => PayloadView::BroadcastOk,
            Payload::Read => PayloadView::Read,
            Payload::ReadOk { messages } => PayloadView::ReadOk { messages: messages@ },
            Payload::Topology { topology } => PayloadView::Topology {
                topology: adjacency(topology@),
            },
            Payload::TopologyOk => PayloadView::TopologyOk,
            Payload::Gossip { seen } => PayloadView::Gossip { seen: seen@ },
            Payload::GossipOk { seen } => PayloadView::GossipOk { seen: seen@ },
        }
    }
}

/// What the node's own ticker asks for.
#[derive(Clone, Copy, Debug, PartialEq, Eq)]
pub enum InjectedPayload {
    /// Time to gossip to the neighbours.
    Gossip,
}

/// A node of the eventually-consistent broadcast.
#[derive(Debug)]
pub struct BroadcastNode {
    id: u64,
    node: String,
    messages: HashSet<u64>,
    neighborhood: Vec<String>,
    known: KnownTable,
}

/// The model of a broadcast node.
pub struct NodeView {
    /// The id that the next answer takes.
    pub next_id: u64,
    /// The node's own name.
    pub node: Seq<char>,
    /// Every value the node has learned.
    pub messages: Set<u64>,
    /// The nodes it gossips to, in order.
    pub neighborhood: Seq<Seq<char>>,
    /// For each cluster member, the values that member is known to have.
    pub known: Map<Seq<char>, Set<u64>>,
}

impl View for BroadcastNode {
    type V = NodeView;

    closed spec fn view(&self) -> NodeView {
        NodeView {
            next_id: self.id,
            node: self.node@,
            messages: self.messages@,
            neighborhood: self.neighborhood.deep_view(),
            known: self.known@,
        }
    }
}

/// A node fresh from the handshake: it has learned nothing, gossips to
/// nobody yet, and knows nothing of what the cluster's members have.
pub open spec fn initial(node: Seq<char>, members: Seq<Seq<char>>) -> NodeView {
    NodeView {
        next_id: 1,
        node,
        messages: Set::empty(),
        neighborhood: Seq::empty(),
        known: Map::new(|name: Seq<char>| members.contains(name), |name: Seq<char>| Set::empty()),
    }
}

/// Why the node refuses an envelope, if it does.
pub open spec fn rejection(s: NodeView, m: MessageView<PayloadView>) -> Option<NodeError> {
    match m.payload {
        PayloadView::Topology { topology } => if topology.contains_key(s.node) {
            None
        } else {
            Some(NodeError::MissingTopologyEntry)
        },
        PayloadView::Gossip { seen } => if s.known.contains_key(m.src) {
            None
        } else {
            Some(NodeError::UnknownPeer)
        },
        _ => None,
    }
}

/// The node after an envelope. Every envelope uses up one message id,
/// answered or not. A refused envelope changes nothing else.
pub open spec fn after_message(s: NodeView, m: MessageView<PayloadView>) -> NodeView {
    let used = NodeView { next_id: (s.next_id + 1) as u64, ..s };
    if rejection(s, m) is Some {
        used
    } else {
        match m.payload {
            PayloadView::Broadcast { message } => NodeView {
                messages: s.messages.insert(message),
                ..used
            },
            PayloadView::Topology { topology } => NodeView {
                neighborhood: topology[s.node],
                ..used
            },
            PayloadView::Gossip { seen } => NodeView {
                messages: s.messages.union(seen),
                known: s.known.insert(m.src, s.known[m.src].union(seen)),
                ..used
            },
            _ => used,
        }
    }
}

/// What the node sends in answer to an envelope it accepts.
pub open spec fn answers(s: NodeView, m: MessageView<PayloadView>) -> Seq<
    MessageView<PayloadView>,
> {
    match m.payload {
        PayloadView::Broadcast { message } => seq![
            reply_view(m, Some(s.next_id), PayloadView::BroadcastOk),
        ],
        PayloadView::Read => seq![
            reply_view(m, Some(s.next_id), PayloadView::ReadOk { messages: s.messages }),
        ],
        PayloadView::Topology { topology } => seq![
            reply_view(m, Some(s.next_id), PayloadView::TopologyOk),
        ],
        _ => Seq::empty(),
    }
}

/// What handling an envelope returns: the refusal, or the answers.
pub open spec fn message_result(s: NodeView, m: MessageView<PayloadView>) -> Result<
    Seq<MessageView<PayloadView>>,
    NodeError,
> {
    match rejection(s, m) {
        Some(e) => Err(e),
        None => Ok(answers(s, m)),
    }
}

/// Whether `sent` is a round of gossip of the node: one envelope for each
/// neighbour, in order, each a member of the cluster, and each envelope with
/// values worth sending to that neighbour.
pub open spec fn tick_sends(s: NodeView, sent: Seq<MessageView<PayloadView>>) -> bool {
    &&& sent.len() == s.neighborhood.len()
    &&& forall|i: int|
        0 <= i < sent.len() ==> {
            &&& s.known.contains_key(s.neighborhood[i])
            &&& (#[trigger] sent[i]).payload matches PayloadView::Gossip { seen }
            &&& sent[i] == notice_view(s.node, s.neighborhood[i], PayloadView::Gossip { seen })
            &&& worth_sending(s.messages, s.known[s.neighborhood[i]], seen)
        }
}

/// Whether `result` is a way a gossip tick of the node can end: with a round
/// of gossip, or refused because a neighbour is no member of the cluster.
pub open spec fn tick_result(
    s: NodeView,
    result: Result<Seq<MessageView<PayloadView>>, NodeError>,
) -> bool {
    match result {
        Ok(sent) => tick_sends(s, sent),
        Err(e) => e == NodeError::UnknownPeer && exists|i: int|
            0 <= i < s.neighborhood.len() && !s.known.contains_key(#[trigger] s.neighborhood[i]),
    }
}

/// The model of what a step returns.
pub open spec fn outcome(r: Result<Vec<Message<Payload>>, NodeError>) -> Result<
    Seq<MessageView<PayloadView>>,
    NodeError,
> {
    match r {
        Ok(sent) => Ok(views(sent@)),
        Err(e) => Err(e),
    }
}

/// A read is answered with exactly the values the node has.
pub proof fn lemma_read_returns_messages(s: NodeView, request: MessageView<PayloadView>)
    requires
        request.payload is Read,
    ensures
        answers(s, request).len() == 1,
        answers(s, request)[0].payload == (PayloadView::ReadOk { messages: s.messages }),
{
}

/// Broadcasting a value a second time changes nothing that a read returns.
pub proof fn lemma_broadcast_idempotent(
    s: NodeView,
    first: MessageView<PayloadView>,
    second: MessageView<PayloadView>,
    read: MessageView<PayloadView>,
)
    requires
        first.payload is Broadcast,
        second.payload == first.payload,
        read.payload is Read,
    ensures
        answers(after_message(after_message(s, first), second), read)[0].payload == answers(
            after_message(s, first),
            read,
        )[0].payload,
{
    let once = after_message(s, first);
    let twice = after_message(once, second);
    assert(twice.messages =~= once.messages);
}

/// A node never forgets: whatever reaches it, it has afterwards every value
/// it had, and believes of every cluster member at least what it believed.
/// The members it keeps track of stay the same.
pub proof fn lemma_node_only_grows(s: NodeView, m: MessageView<PayloadView>)
    ensures
        s.messages.subset_of(after_message(s, m).messages),
        after_message(s, m).known.dom() == s.known.dom(),
        forall|peer: Seq<char>| #[trigger]
            s.known.contains_key(peer) ==> s.known[peer].subset_of(
                after_message(s, m).known[peer],
            ),
        after_message(s, m).node == s.node,
{
    assert(after_message(s, m).known.dom() =~= s.known.dom());
}

/// Every answer goes back to where the request came from and names the
/// request it answers.
pub proof fn lemma_answers_correlate(s: NodeView, request: MessageView<PayloadView>, i: int)
    requires
        0 <= i < answers(s, request).len(),
    ensures
        answers(s, request)[i].in_reply_to == request.id,
        answers(s, request)[i].src == request.dst,
        answers(s, request)[i].dst == request.src,
        answers(s, request)[i].id == Some(s.next_id),
{
}

/// The neighbours that `topology` gives for `node`, if it names the node.
pub fn neighbors_of(topology: Vec<(String, Vec<String>)>, node: &String) -> (r: Option<
    Vec<String>,
>)
    ensures
        match r {
            Some(neighbors) => adjacency(topology@).contains_key(node@) && neighbors.deep_view()
                == adjacency(topology@)[node@],
            None => !adjacency(topology@).contains_key(node@),
        },
{
    let mut rest = topology;
    let mut found: Option<Vec<String>> = None;
    while found.is_none() && rest.len() > 0
        invariant
            rest@.len() <= topology@.len(),
            rest@ == topology@.take(rest@.len() as int),
            match found {
                Some(neighbors) => adjacency(topology@).contains_key(node@)
                    && neighbors.deep_view() == adjacency(topology@)[node@],
                None => {
                    &&& adjacency(topology@).contains_key(node@) == adjacency(rest@).contains_key(
                        node@,
                    )
                    &&& adjacency(topology@).contains_key(node@) ==> adjacency(topology@)[node@]
                        == adjacency(rest@)[node@]
                },
            },
        decreases rest.len(),
    {
        let ghost before = rest@;
        let entry = rest.pop();
        let (name, neighbors) = entry.unwrap();
        assert(rest@ =~= before.drop_last());
        assert(rest@ =~= topology@.take(rest@.len() as int));
        assert(adjacency(before) == adjacency(before.drop_last()).insert(
            name@,
            neighbors.deep_view(),
        ));
        if name == *node {
            found = Some(neighbors);
        }
    }
    found
}

impl BroadcastNode {
    /// The node that the handshake's data describes.
    pub fn from_init(init: Init) -> (node: BroadcastNode)
        ensures
            node@ == initial(init.node_id@, init.node_ids.deep_view()),
    {
        let known = KnownTable::new(&init.node_ids);
        let node = BroadcastNode {
            id: 1,
            node: init.node_id,
            messages: HashSet::new(),
            neighborhood: Vec::new(),
            known,
        };
        proof {
            let members = init.node_ids.deep_view();
            assert(node.neighborhood.deep_view() =~= Seq::<Seq<char>>::empty());
            assert(node.known@ =~= initial(init.node_id@, members).known) by {
                assert forall|name: Seq<char>| node.known@.contains_key(name) implies node.known@[name]
                    == Set::<u64>::empty() by {
                    assert(node.known@[name].is_empty());
                    assert(node.known@[name] =~= Set::<u64>::empty());
                }
            }
        }
        node
    }

    /// The node's own name.
    pub fn node_id(&self) -> (name: &String)
        ensures
            name@ == self@.node,
    {
        &self.node
    }

    /// The id that the next answer takes.
    pub fn next_id(&self) -> (id: u64)
        ensures
            id == self@.next_id,
    {
        self.id
    }

    /// Every value learned so far.
    pub fn messages(&self) -> (values: &HashSet<u64>)
        ensures
            values@ == self@.messages,
    {
        &self.messages
    }

    /// The nodes this one gossips to.
    pub fn neighborhood(&self) -> (names: &Vec<String>)
        ensures
            names.deep_view() == self@.neighborhood,
    {
        &self.neighborhood
    }

    /// What each cluster member is known to have.
    pub fn known(&self) -> (table: &KnownTable)
        ensures
            table@ == self@.known,
    {
        &self.known
    }

    /// Handles one envelope from the wire.
    ///
    /// A broadcast value is stored; a read is answered with all values
    /// stored; a topology installs this node's neighbours; gossip is merged
    /// into the values stored and noted as known to its sender, without an
    /// answer. Acknowledgements are ignored. The node must have a message
    /// id left.
    pub fn on_message(&mut self, input: Message<Payload>) -> (r: Result<
        Vec<Message<Payload>>,
        NodeError,
    >)
        requires
            old(self)@.next_id < u64::MAX,
        ensures
            final(self)@ == after_message(old(self)@, input@),
            outcome(r) == message_result(old(self)@, input@),
    {
        let reply = input.into_reply(Some(&mut self.id));
        let Message { src, dst, body } = reply;
        let Body { id, in_reply_to, payload } = body;
        match payload {
            Payload::Gossip { seen } => {
                if !self.known.record(&dst, &seen) {
                    return Err(NodeError::UnknownPeer);
                }
                extend_set(&mut self.messages, &seen);
                let sent: Vec<Message<Payload>> = Vec::new();
                assert(views(sent@) =~= answers(old(self)@, input@));
                Ok(sent)
            },
            Payload::Broadcast { message } => {
                self.messages.insert(message);
                let sent = vec![
                    Message { src, dst, body: Body { id, in_reply_to, payload: Payload::BroadcastOk } },
                ];
                assert(views(sent@) =~= answers(old(self)@, input@));
                Ok(sent)
            },
            Payload::Read => {
                let messages = copy_set(&self.messages);
                let sent = vec![
                    Message {
                        src,
                        dst,
                        body: Body { id, in_reply_to, payload: Payload::ReadOk { messages } },
                    },
                ];
                assert(views(sent@) =~= answers(old(self)@, input@));
                Ok(sent)
            },
            Payload::Topology { topology } => {
                match neighbors_of(topology, &self.node) {
                    None => Err(NodeError::MissingTopologyEntry),
                    Some(neighbors) => {
                        self.neighborhood = neighbors;
                        let sent = vec![
                            Message {
                                src,
                                dst,
                                body: Body { id, in_reply_to, payload: Payload::TopologyOk },
                            },
                        ];
                        assert(views(sent@) =~= answers(old(self)@, input@));
                        Ok(sent)
                    },
                }
            },
            Payload::BroadcastOk | Payload::ReadOk { .. } | Payload::TopologyOk | Payload::GossipOk {
                ..
            } => {
                let sent: Vec<Message<Payload>> = Vec::new();
                assert(views(sent@) =~= answers(old(self)@, input@));
                Ok(sent)
            },
        }
    }

    /// One round of gossip: an envelope for each neighbour, with what that
    /// neighbour is not known to have and a small random sample of what it
    /// has. The node itself does not change.
    pub fn gossip_tick(&self) -> (r: Result<Vec<Message<Payload>>, NodeError>)
        ensures
            tick_result(self@, outcome(r)),
    {
        let mut sent: Vec<Message<Payload>> = Vec::new();
        let mut i: usize = 0;
        while i < self.neighborhood.len()
            invariant
                i <= self.neighborhood.len(),
                sent.len() == i,
                forall|j: int|
                    0 <= j < i ==> {
                        &&& self@.known.contains_key(self@.neighborhood[j])
                        &&& (#[trigger] sent[j])@.payload matches PayloadView::Gossip { seen }
                        &&& sent[j]@ == notice_view(
                            self@.node,
                            self@.neighborhood[j],
                            PayloadView::Gossip { seen },
                        )
                        &&& worth_sending(self@.messages, self@.known[self@.neighborhood[j]], seen)
                    },
            decreases self.neighborhood.len() - i,
        {
            let neighbor = &self.neighborhood[i];
            assert(self@.neighborhood[i as int] == neighbor@);
            match self.known.get(neighbor) {
                None => {
                    return Err(NodeError::UnknownPeer);
                },
                Some(known) => {
                    let seen = gossip_set(&self.messages, known);
                    sent.push(
                        Message {
                            src: self.node.clone(),
                            dst: neighbor.clone(),
                            body: Body {
                                id: None,
                                in_reply_to: None,
                                payload: Payload::Gossip { seen },
                            },
                        },
                    );
                },
            }
            i += 1;
        }
        proof {
            let models = views(sent@);
            assert forall|j: int| 0 <= j < models.len() implies {
                &&& self@.known.contains_key(self@.neighborhood[j])
                &&& (#[trigger] models[j]).payload matches PayloadView::Gossip { seen }
                &&& models[j] == notice_view(
                    self@.node,
                    self@.neighborhood[j],
                    PayloadView::Gossip { seen },
                )
                &&& worth_sending(self@.messages, self@.known[self@.neighborhood[j]], seen)
            } by {
                assert(models[j] == sent[j]@);
            }
        }
        Ok(sent)
    }

    /// Handles one event: an envelope, a gossip tick, or the end of input,
    /// at which the node has nothing left to do. For an envelope the node
    /// must have a message id left.
    pub fn step(&mut self, input: Event<Payload, InjectedPayload>) -> (r: Result<
        Vec<Message<Payload>>,
        NodeError,
    >)
        requires
            input is Message ==> old(self)@.next_id < u64::MAX,
        ensures
            match input {
                Event::Message(m) => final(self)@ == after_message(old(self)@, m@) && outcome(r)
                    == message_result(old(self)@, m@),
                Event::Injected(InjectedPayload::Gossip) => final(self)@ == old(self)@
                    && tick_result(old(self)@, outcome(r)),
                Event::EOF => final(self)@ == old(self)@ && outcome(r) == Ok::<
                    Seq<MessageView<PayloadView>>,
                    NodeError,
                >(Seq::empty()),
            },
    {
        match input {
            Event::EOF => {
                let sent: Vec<Message<Payload>> = Vec::new();
                assert(views(sent@) =~= Seq::<MessageView<PayloadView>>::empty());
                Ok(sent)
            },
            Event::Injected(payload) => match payload {
                InjectedPayload::Gossip => self.gossip_tick(),
            },
            Event::Message(input) => self.on_message(input),
        }
    }
}

} // verus!
