use std::collections::{HashMap, HashSet};
use vstd::prelude::*;
use crate::decimal::{parse_unsigned, unsigned_of};
use crate::error::NodeError;
use crate::message::{notice_view, reply_view, views, Body, Event, Init, Message, MessageView};
use crate::tally::{
    count_of, lemma_total_insert, lemma_total_merged, merge_max, merged, sum_values, total,
};

verus! {

/// The message kinds of the counter protocol.
#[derive(Debug, PartialEq, Eq)]
pub enum Payload {
    Add { delta: u64 },
    AddOk,
    Read,
    ReadOk { value: u64 },
    /// A node's whole table: for each node index, the contribution last
    /// known of that node.
    Gossip { vec: HashMap<u64, u64> },
}

/// The model of a payload.
pub enum PayloadView {
    Add { delta: u64 },
    AddOk,
    Read,
    ReadOk { value: u64 },
    Gossip { vec: Map<u64, u64> },
}

impl View for Payload {
    type V = PayloadView;

    open spec fn view(&self) -> PayloadView {
        match *self {
            Payload::Add { delta } => PayloadView::Add { delta },
            Payload::AddOk => PayloadView::AddOk,
            Payload::Read => PayloadView::Read,
            Payload::ReadOk { value } => PayloadView::ReadOk { value },
            Payload::Gossip { vec } => PayloadView::Gossip { vec: vec@ },
        }
    }
}

/// What a background producer of the node may ask for.
#[derive(Clone, Copy, Debug, PartialEq, Eq)]
pub enum InjectedPayload {
    /// A gossip tick. The node gossips on every add, so a tick has nothing
    /// left to do.
    Gossip,
}

/// A node of the grow-only counter.
#[derive(Debug)]
pub struct CounterNode {
    id: u64,
    node_id: u64,
    counters: HashMap<u64, u64>,
    str_id: String,
    cluster: Vec<String>,
}

/// The model of a counter node.
pub struct CounterView {
    /// The id that the next answer takes.
    pub next_id: u64,
    /// The node's index, read from its name.
    pub node_id: u64,
    /// The node's own name.
    pub node: Seq<char>,
    /// For each node index, the contribution last known of that node; the
    /// node's own entry is its own contribution.
    pub counters: Map<u64, u64>,
    /// The names of all nodes of the cluster.
    pub cluster: Seq<Seq<char>>,
}

impl View for CounterNode {
    type V = CounterView;

    closed spec fn view(&self) -> CounterView {
        CounterView {
            next_id: self.id,
            node_id: self.node_id,
            node: self.str_id@,
            counters: self.counters@,
            cluster: self.cluster.deep_view(),
        }
    }
}

/// The index that a node name carries: what follows its first character,
/// read as an unsigned decimal. The first character must be a one-byte one.
pub open spec fn node_index(name: Seq<char>) -> Option<u64> {
    if name.len() > 0 && name[0] <= '\u{7f}' {
        unsigned_of(name.drop_first())
    } else {
        None
    }
}

/// The indices of the members, in order.
pub open spec fn member_indices(members: Seq<Seq<char>>) -> Seq<Option<u64>> {
    Seq::new(members.len(), |i: int| node_index(members[i]))
}

/// Why a node cannot be made from the handshake's data, if it cannot: every
/// member must carry an index, no two the same one, and so must the node.
pub open spec fn init_error(node: Seq<char>, members: Seq<Seq<char>>) -> Option<NodeError> {
    if exists|i: int| 0 <= i < members.len() && node_index(#[trigger] members[i]) is None {
        Some(NodeError::MalformedNodeId)
    } else if !member_indices(members).no_duplicates() {
        Some(NodeError::DuplicateNodeId)
    } else if node_index(node) is None {
        Some(NodeError::MalformedNodeId)
    } else {
        None
    }
}

/// A node fresh from the handshake: nothing counted yet.
pub open spec fn initial(node: Seq<char>, members: Seq<Seq<char>>) -> CounterView {
    CounterView {
        next_id: 1,
        node_id: node_index(node).unwrap(),
        node,
        counters: Map::empty(),
        cluster: members,
    }
}

/// Why the node refuses an envelope, if it does: a sum that does not fit in
/// 64 bits.
pub open spec fn rejection(s: CounterView, m: MessageView<PayloadView>) -> Option<NodeError> {
    match m.payload {
        PayloadView::Add { delta } => if count_of(s.counters, s.node_id) + delta > u64::MAX {
            Some(NodeError::CounterOverflow)
        } else {
            None
        },
        PayloadView::Read => if total(s.counters) > u64::MAX {
            Some(NodeError::CounterOverflow)
        } else {
            None
        },
        _ => None,
    }
}

/// Whether handling the envelope takes a message id: an answer does.
pub open spec fn needs_id(m: MessageView<PayloadView>) -> bool {
    m.payload is Add || m.payload is Read
}

/// The node after an envelope. An add raises the node's own contribution;
/// gossip is merged in by point-wise maximum; an envelope that is answered
/// uses up one message id. A refused envelope changes nothing.
pub open spec fn after_message(s: CounterView, m: MessageView<PayloadView>) -> CounterView {
    if rejection(s, m) is Some {
        s
    } else {
        match m.payload {
            PayloadView::Add { delta } => CounterView {
                next_id: (s.next_id + 1) as u64,
                counters: s.counters.insert(
                    s.node_id,
                    (count_of(s.counters, s.node_id) + delta) as u64,
                ),
                ..s
            },
            PayloadView::Read => CounterView { next_id: (s.next_id + 1) as u64, ..s },
            PayloadView::Gossip { vec } => CounterView { counters: merged(s.counters, vec), ..s },
            _ => s,
        }
    }
}

/// The node's table, addressed to every member but the node itself, in the
/// order of the cluster.
pub open spec fn spread(node: Seq<char>, members: Seq<Seq<char>>, counters: Map<u64, u64>) -> Seq<
    MessageView<PayloadView>,
>
    decreases members.len(),
{
    if members.len() == 0 {
        Seq::empty()
    } else {
        let before = spread(node, members.drop_last(), counters);
        if members.last() == node {
            before
        } else {
            before.push(notice_view(node, members.last(), PayloadView::Gossip { vec: counters }))
        }
    }
}

/// What the node sends after an envelope it accepts: to an add, the
/// acknowledgement and then its new table to every other member; to a read,
/// the sum of its table.
pub open spec fn answers(s: CounterView, m: MessageView<PayloadView>) -> Seq<
    MessageView<PayloadView>,
> {
    match m.payload {
        PayloadView::Add { delta } => seq![reply_view(m, Some(s.next_id), PayloadView::AddOk)]
            + spread(s.node, s.cluster, after_message(s, m).counters),
        PayloadView::Read => seq![
            reply_view(
                m,
                Some(s.next_id),
                PayloadView::ReadOk { value: total(s.counters) as u64 },
            ),
        ],
        _ => Seq::empty(),
    }
}

/// What handling an envelope returns: the refusal, or what is sent.
pub open spec fn message_result(s: CounterView, m: MessageView<PayloadView>) -> Result<
    Seq<MessageView<PayloadView>>,
    NodeError,
> {
    match rejection(s, m) {
        Some(e) => Err(e),
        None => Ok(answers(s, m)),
    }
}

/// The model of what a step returns.
pub open spec fn outcome(r: Result<Vec<Message<Payload>>, NodeError>) -> Result<
    Seq<MessageView<PayloadView>>,
    NodeError,
> {
    match r {
        Ok(sent) => Ok(views(sent@)),
        Err(e) => Err(e),
    }
}

/// A table with finitely many entries, which every table in memory is.
pub open spec fn finite_table(s: CounterView) -> bool {
    s.counters.dom().finite()
}

/// An envelope whose gossip, if it carries any, has finitely many entries.
pub open spec fn finite_gossip(m: MessageView<PayloadView>) -> bool {
    m.payload matches PayloadView::Gossip { vec } ==> vec.dom().finite()
}

/// The node after a run of envelopes, handled in order.
pub open spec fn after_all(s: CounterView, run: Seq<MessageView<PayloadView>>) -> CounterView
    decreases run.len(),
{
    if run.len() == 0 {
        s
    } else {
        after_message(after_all(s, run.drop_last()), run.last())
    }
}

/// No envelope lowers the sum that a read returns: an add raises one entry,
/// a merge raises entries or adds some, and nothing else touches the table.
pub proof fn lemma_sum_never_decreases(s: CounterView, m: MessageView<PayloadView>)
    requires
        finite_table(s),
        finite_gossip(m),
    ensures
        finite_table(after_message(s, m)),
        total(s.counters) <= total(after_message(s, m).counters),
{
    if rejection(s, m) is None {
        match m.payload {
            PayloadView::Add { delta } => {
                lemma_total_insert(
                    s.counters,
                    s.node_id,
                    (count_of(s.counters, s.node_id) + delta) as u64,
                );
            },
            PayloadView::Gossip { vec } => {
                lemma_total_merged(s.counters, vec);
            },
            _ => {},
        }
    }
}

/// Along any run of adds, reads and gossip, in any order, the sum that a
/// read returns at a later point is no smaller than at an earlier one.
pub proof fn lemma_sum_grows_along_a_run(
    s: CounterView,
    run: Seq<MessageView<PayloadView>>,
    i: int,
    j: int,
)
    requires
        finite_table(s),
        forall|k: int| 0 <= k < run.len() ==> finite_gossip(#[trigger] run[k]),
        0 <= i <= j <= run.len(),
    ensures
        finite_table(after_all(s, run.take(i))),
        finite_table(after_all(s, run.take(j))),
        total(after_all(s, run.take(i)).counters) <= total(after_all(s, run.take(j)).counters),
    decreases j, i,
{
    if i < j {
        lemma_sum_grows_along_a_run(s, run, i, j - 1);
        assert(run.take(j).drop_last() =~= run.take(j - 1));
        assert(run.take(j).last() == run[j - 1]);
        lemma_sum_never_decreases(after_all(s, run.take(j - 1)), run[j - 1]);
    } else if j > 0 {
        lemma_sum_grows_along_a_run(s, run, 0, j);
    }
}

/// The first thing sent after a request is its answer: it goes back to
/// where the request came from and names the request it answers.
pub proof fn lemma_answers_correlate(s: CounterView, request: MessageView<PayloadView>)
    requires
        answers(s, request).len() > 0,
    ensures
        answers(s, request)[0].in_reply_to == request.id,
        answers(s, request)[0].src == request.dst,
        answers(s, request)[0].dst == request.src,
        answers(s, request)[0].id == Some(s.next_id),
{
}

/// The index that a node name carries, if it carries one.
pub fn parse_id(s: &str) -> (index: Option<u64>)
    ensures
        index == node_index(s@),
{
    let n = s.unicode_len();
    if n == 0 {
        return None;
    }
    if s.get_char(0) > '\u{7f}' {
        return None;
    }
    let rest = s.substring_char(1, n);
    assert(rest@ =~= s@.drop_first());
    parse_unsigned(rest)
}

impl CounterNode {
    /// The node that the handshake's data describes, if every member's name
    /// carries an index of its own.
    pub fn from_init(init: Init) -> (r: Result<CounterNode, NodeError>)
        ensures
            match r {
                Ok(node) => init_error(init.node_id@, init.node_ids.deep_view()) is None && node@
                    == initial(init.node_id@, init.node_ids.deep_view()),
                Err(e) => init_error(init.node_id@, init.node_ids.deep_view()) == Some(e),
            },
    {
        broadcast use vstd::std_specs::hash::group_hash_axioms;

        let ghost members = init.node_ids.deep_view();
        let mut indices: HashSet<u64> = HashSet::new();
        let ghost mut parsed: Seq<u64> = Seq::empty();
        let mut i: usize = 0;
        while i < init.node_ids.len()
            invariant
                i <= init.node_ids.len(),
                members == init.node_ids.deep_view(),
                parsed.len() == i,
                forall|j: int| 0 <= j < i ==> node_index(#[trigger] members[j]) == Some(parsed[j]),
                indices@ == parsed.to_set(),
            decreases init.node_ids.len() - i,
        {
            assert(members[i as int] == init.node_ids[i as int]@);
            match parse_id(init.node_ids[i].as_str()) {
                None => {
                    return Err(NodeError::MalformedNodeId);
                },
                Some(index) => {
                    indices.insert(index);
                    proof {
                        parsed.lemma_push_to_set_commute(index);
                        parsed = parsed.push(index);
                    }
                },
            }
            i += 1;
        }
        proof {
            vstd::seq_lib::seq_to_set_is_finite(parsed);
            assert(member_indices(members) =~= parsed.map_values(|index: u64| Some(index)));
            if parsed.no_duplicates() {
                parsed.unique_seq_to_set();
                assert(member_indices(members).no_duplicates());
            }
            if parsed.to_set().len() == parsed.len() {
                parsed.lemma_no_dup_set_cardinality();
            }
            if member_indices(members).no_duplicates() {
                assert forall|a: int, b: int|
                    0 <= a < parsed.len() && 0 <= b < parsed.len() && a != b implies parsed[a]
                    != parsed[b] by {
                    assert(member_indices(members)[a] != member_indices(members)[b]);
                }
            }
        }
        if indices.len() != init.node_ids.len() {
            return Err(NodeError::DuplicateNodeId);
        }
        match parse_id(init.node_id.as_str()) {
            None => Err(NodeError::MalformedNodeId),
            Some(node_id) => Ok(
                CounterNode {
                    id: 1,
                    node_id,
                    counters: HashMap::new(),
                    str_id: init.node_id,
                    cluster: init.node_ids,
                },
            ),
        }
    }

    /// The node's own name.
    pub fn name(&self) -> (name: &String)
        ensures
            name@ == self@.node,
    {
        &self.str_id
    }

    /// The node's index.
    pub fn node_id(&self) -> (index: u64)
        ensures
            index == self@.node_id,
    {
        self.node_id
    }

    /// The id that the next answer takes.
    pub fn next_id(&self) -> (id: u64)
        ensures
            id == self@.next_id,
    {
        self.id
    }

    /// How many members the cluster has.
    pub fn node_count(&self) -> (count: usize)
        ensures
            count == self@.cluster.len(),
    {
        self.cluster.len()
    }

    /// The names of the cluster's members.
    pub fn cluster(&self) -> (names: &Vec<String>)
        ensures
            names.deep_view() == self@.cluster,
    {
        &self.cluster
    }

    /// The contributions last known, by node index.
    pub fn counters(&self) -> (table: &HashMap<u64, u64>)
        ensures
            table@ == self@.counters,
    {
        &self.counters
    }

    /// The node's table for every member but the node itself.
    fn fan_out(&self) -> (sent: Vec<Message<Payload>>)
        ensures
            views(sent@) == spread(self@.node, self@.cluster, self@.counters),
    {
        let mut sent: Vec<Message<Payload>> = Vec::new();
        let ghost members = self.cluster.deep_view();
        let mut i: usize = 0;
        assert(views(sent@) =~= spread(self@.node, members.take(0), self@.counters));
        while i < self.cluster.len()
            invariant
                i <= self.cluster.len(),
                members == self.cluster.deep_view(),
                views(sent@) == spread(self@.node, members.take(i as int), self@.counters),
            decreases self.cluster.len() - i,
        {
            let dst = &self.cluster[i];
            let ghost before = views(sent@);
            proof {
                assert(members.take(i + 1).drop_last() =~= members.take(i as int));
                assert(members.take(i + 1).last() == dst@);
            }
            if *dst != self.str_id {
                sent.push(
                    Message {
                        src: self.str_id.clone(),
                        dst: dst.clone(),
                        body: Body {
                            payload: Payload::Gossip { vec: self.counters.clone() },
                            id: None,
                            in_reply_to: None,
                        },
                    },
                );
                assert(views(sent@) =~= before.push(
                    notice_view(self@.node, dst@, PayloadView::Gossip { vec: self@.counters }),
                ));
            }
            i += 1;
        }
        assert(members.take(i as int) =~= members);
        sent
    }

    /// Handles one envelope from the wire. For an envelope that is answered
    /// the node must have a message id left.
    pub fn on_message(&mut self, input: Message<Payload>) -> (r: Result<
        Vec<Message<Payload>>,
        NodeError,
    >)
        requires
            needs_id(input@) ==> old(self)@.next_id < u64::MAX,
        ensures
            final(self)@ == after_message(old(self)@, input@),
            outcome(r) == message_result(old(self)@, input@),
    {
        broadcast use vstd::std_specs::hash::group_hash_axioms;

        let Message { src, dst, body } = input;
        let Body { id, in_reply_to, payload } = body;
        match payload {
            Payload::Add { delta } => {
                let own = match self.counters.get(&self.node_id) {
                    Some(value) => *value,
                    None => 0,
                };
                if delta > u64::MAX - own {
                    return Err(NodeError::CounterOverflow);
                }
                self.counters.insert(self.node_id, own + delta);
                let mut gossip = self.fan_out();
                let request = Message {
                    src,
                    dst,
                    body: Body { id, in_reply_to, payload: Payload::AddOk },
                };
                let reply = request.into_reply(Some(&mut self.id));
                let mut sent = vec![reply];
                sent.append(&mut gossip);
                assert(views(sent@) =~= answers(old(self)@, input@));
                Ok(sent)
            },
            Payload::Read => {
                match sum_values(&self.counters) {
                    None => Err(NodeError::CounterOverflow),
                    Some(value) => {
                        let request = Message {
                            src,
                            dst,
                            body: Body { id, in_reply_to, payload: Payload::ReadOk { value } },
                        };
                        let reply = request.into_reply(Some(&mut self.id));
                        let sent = vec![reply];
                        assert(views(sent@) =~= answers(old(self)@, input@));
                        Ok(sent)
                    },
                }
            },
            Payload::Gossip { vec } => {
                merge_max(&mut self.counters, &vec);
                let sent: Vec<Message<Payload>> = Vec::new();
                assert(views(sent@) =~= answers(old(self)@, input@));
                Ok(sent)
            },
            Payload::ReadOk { .. } | Payload::AddOk => {
                let sent: Vec<Message<Payload>> = Vec::new();
                assert(views(sent@) =~= answers(old(self)@, input@));
                Ok(sent)
            },
        }
    }

    /// Handles one event. Only envelopes have an effect; for one that is
    /// answered the node must have a message id left.
    pub fn step(&mut self, input: Event<Payload, InjectedPayload>) -> (r: Result<
        Vec<Message<Payload>>,
        NodeError,
    >)
        requires
            input matches Event::Message(m) && needs_id(m@) ==> old(self)@.next_id < u64::MAX,
        ensures
            match input {
                Event::Message(m) => final(self)@ == after_message(old(self)@, m@) && outcome(r)
                    == message_result(old(self)@, m@),
                _ => final(self)@ == old(self)@ && outcome(r) == Ok::<
                    Seq<MessageView<PayloadView>>,
                    NodeError,
                >(Seq::empty()),
            },
    {
        match input {
            Event::EOF => {
                let sent: Vec<Message<Payload>> = Vec::new();
                assert(views(sent@) =~= Seq::<MessageView<PayloadView>>::empty());
                Ok(sent)
            },
            Event::Injected(payload) => match payload {
                InjectedPayload::Gossip => {
                    let sent: Vec<Message<Payload>> = Vec::new();
                    assert(views(sent@) =~= Seq::<MessageView<PayloadView>>::empty());
                    Ok(sent)
                },
            },
            Event::Message(input) => self.on_message(input),
        }
    }
}

} // verus!
