use vstd::prelude::*;
use crate::decimal::{
    digits_of, is_digit, lemma_digits_of_injective, lemma_digits_of_shape, push_decimal,
};
use crate::message::{reply_view, views, Body, Init, Message, MessageView};

verus! {

/// The message kinds of the unique-id protocol.
#[derive(Debug, PartialEq, Eq)]
pub enum Payload {
    Generate,
    GenerateOk { guid: String },
}

/// The model of a payload.
pub enum PayloadView {
    Generate,
    GenerateOk { guid: Seq<char> },
}

impl View for Payload {
    type V = PayloadView;

    open spec fn view(&self) -> PayloadView {
        match *self {
            Payload::Generate => PayloadView::Generate,
            Payload::GenerateOk { guid } => PayloadView::GenerateOk { guid: guid@ },
        }
    }
}

/// A node that mints ids which no other node, and no other request, gets.
#[derive(Debug)]
pub struct UniqueNode {
    id: u64,
    node: String,
}

/// The model of a unique-id node.
pub struct UniqueView {
    /// The id that the next answer takes.
    pub next_id: u64,
    /// The node's own name.
    pub node: Seq<char>,
}

impl View for UniqueNode {
    type V = UniqueView;

    closed spec fn view(&self) -> UniqueView {
        UniqueView { next_id: self.id, node: self.node@ }
    }
}

/// The id minted by the node called `node` when its counter stands at
/// `counter`: the name, a hyphen, and the counter in decimal.
pub open spec fn guid_of(node: Seq<char>, counter: nat) -> Seq<char> {
    node + seq!['-'] + digits_of(counter)
}

/// The id that a request handled in state `s` gets.
pub open spec fn minted(s: UniqueView) -> Seq<char> {
    guid_of(s.node, (s.next_id + 1) as nat)
}

/// The node after an envelope: one message id further.
pub open spec fn after_message(s: UniqueView, m: MessageView<PayloadView>) -> UniqueView {
    UniqueView { next_id: (s.next_id + 1) as u64, ..s }
}

/// What the node sends in answer to an envelope.
pub open spec fn answers(s: UniqueView, m: MessageView<PayloadView>) -> Seq<
    MessageView<PayloadView>,
> {
    match m.payload {
        PayloadView::Generate => seq![
            reply_view(m, Some(s.next_id), PayloadView::GenerateOk { guid: minted(s) }),
        ],
        PayloadView::GenerateOk { guid } => Seq::empty(),
    }
}

/// The node after a run of envelopes, handled in order.
pub open spec fn after_all(s: UniqueView, run: Seq<MessageView<PayloadView>>) -> UniqueView
    decreases run.len(),
{
    if run.len() == 0 {
        s
    } else {
        after_message(after_all(s, run.drop_last()), run.last())
    }
}

/// An id names its node and its counter: two ids are one only where both the
/// names and the counters are. The counter's numeral holds no hyphen, so the
/// last hyphen of an id is the one that parts name and numeral, whatever the
/// name holds.
pub proof fn lemma_guid_injective(node_a: Seq<char>, a: nat, node_b: Seq<char>, b: nat)
    requires
        guid_of(node_a, a) == guid_of(node_b, b),
    ensures
        node_a == node_b,
        a == b,
{
    let ga = guid_of(node_a, a);
    let gb = guid_of(node_b, b);
    lemma_digits_of_shape(a);
    lemma_digits_of_shape(b);
    assert(ga.len() == node_a.len() + 1 + digits_of(a).len());
    assert(gb.len() == node_b.len() + 1 + digits_of(b).len());
    assert(ga[node_a.len() as int] == '-');
    assert(gb[node_b.len() as int] == '-');
    if node_a.len() < node_b.len() {
        let k = node_b.len() - node_a.len() - 1;
        assert(ga[node_b.len() as int] == digits_of(a)[k]);
        assert(is_digit(digits_of(a)[k]));
    } else if node_b.len() < node_a.len() {
        let k = node_a.len() - node_b.len() - 1;
        assert(gb[node_a.len() as int] == digits_of(b)[k]);
        assert(is_digit(digits_of(b)[k]));
    } else {
        assert(node_a =~= node_b) by {
            assert forall|i: int| 0 <= i < node_a.len() implies node_a[i] == node_b[i] by {
                assert(ga[i] == node_a[i]);
                assert(gb[i] == node_b[i]);
            }
        }
        assert(digits_of(a) =~= digits_of(b)) by {
            assert forall|i: int| 0 <= i < digits_of(a).len() implies digits_of(a)[i]
                == digits_of(b)[i] by {
                assert(ga[node_a.len() + 1 + i] == digits_of(a)[i]);
                assert(gb[node_b.len() + 1 + i] == digits_of(b)[i]);
            }
        }
        lemma_digits_of_injective(a, b);
    }
}

/// Two nodes with different names never mint the same id, whatever their
/// counters stand at.
pub proof fn lemma_ids_differ_across_nodes(a: UniqueView, b: UniqueView)
    requires
        a.node != b.node,
    ensures
        minted(a) != minted(b),
{
    if minted(a) == minted(b) {
        lemma_guid_injective(a.node, (a.next_id + 1) as nat, b.node, (b.next_id + 1) as nat);
    }
}

/// After `n` envelopes of a run that leaves message ids to spare, the node
/// has its name still and its counter stands `n` higher.
pub proof fn lemma_counter_advances(s: UniqueView, run: Seq<MessageView<PayloadView>>, n: int)
    requires
        0 <= n <= run.len(),
        s.next_id + run.len() <= u64::MAX,
    ensures
        after_all(s, run.take(n)).node == s.node,
        after_all(s, run.take(n)).next_id == s.next_id + n,
    decreases n,
{
    if n > 0 {
        lemma_counter_advances(s, run, n - 1);
        assert(run.take(n).drop_last() =~= run.take(n - 1));
    }
}

/// However many requests one node answers, no two of them get the same id,
/// as long as its message ids last.
pub proof fn lemma_ids_differ_along_a_run(
    s: UniqueView,
    run: Seq<MessageView<PayloadView>>,
    i: int,
    j: int,
)
    requires
        0 <= i < j < run.len(),
        s.next_id + run.len() <= u64::MAX,
    ensures
        minted(after_all(s, run.take(i))) != minted(after_all(s, run.take(j))),
{
    let at_i = after_all(s, run.take(i));
    let at_j = after_all(s, run.take(j));
    lemma_counter_advances(s, run, i);
    lemma_counter_advances(s, run, j);
    if minted(at_i) == minted(at_j) {
        lemma_guid_injective(
            at_i.node,
            (at_i.next_id + 1) as nat,
            at_j.node,
            (at_j.next_id + 1) as nat,
        );
    }
}

/// Every answer goes back to where the request came from and names the
/// request it answers.
pub proof fn lemma_answers_correlate(s: UniqueView, request: MessageView<PayloadView>, i: int)
    requires
        0 <= i < answers(s, request).len(),
    ensures
        answers(s, request)[i].in_reply_to == request.id,
        answers(s, request)[i].src == request.dst,
        answers(s, request)[i].dst == request.src,
        answers(s, request)[i].id == Some(s.next_id),
{
}

/// The id for `node` at `counter`.
pub fn mint(node: &String, counter: u64) -> (guid: String)
    ensures
        guid@ == guid_of(node@, counter as nat),
{
    proof {
        reveal_strlit("-");
    }
    let mut guid = node.clone();
    guid.append("-");
    push_decimal(&mut guid, counter);
    assert(guid@ =~= guid_of(node@, counter as nat));
    guid
}

impl UniqueNode {
    /// The node that the handshake's data describes.
    pub fn from_init(init: Init) -> (node: UniqueNode)
        ensures
            node@ == (UniqueView { next_id: 1, node: init.node_id@ }),
    {
        UniqueNode { node: init.node_id, id: 1 }
    }

    /// The node's own name.
    pub fn node_id(&self) -> (name: &String)
        ensures
            name@ == self@.node,
    {
        &self.node
    }

    /// The id that the next answer takes.
    pub fn next_id(&self) -> (id: u64)
        ensures
            id == self@.next_id,
    {
        self.id
    }

    /// Handles one envelope: a request is answered with a fresh id, made of
    /// the node's name and its counter after this answer; an
    /// acknowledgement is ignored. The node must have a message id left.
    pub fn step(&mut self, input: Message<Payload>) -> (sent: Vec<Message<Payload>>)
        requires
            old(self)@.next_id < u64::MAX,
        ensures
            final(self)@ == after_message(old(self)@, input@),
            views(sent@) == answers(old(self)@, input@),
    {
        let reply = input.into_reply(Some(&mut self.id));
        let Message { src, dst, body } = reply;
        let Body { id, in_reply_to, payload } = body;
        match payload {
            Payload::Generate => {
                let guid = mint(&self.node, self.id);
                let sent = vec![
                    Message {
                        src,
                        dst,
                        body: Body { id, in_reply_to, payload: Payload::GenerateOk { guid } },
                    },
                ];
                assert(views(sent@) =~= answers(old(self)@, input@));
                sent
            },
            Payload::GenerateOk { .. } => {
                let sent: Vec<Message<Payload>> = Vec::new();
                assert(views(sent@) =~= answers(old(self)@, input@));
                sent
            },
        }
    }
}

} // verus!
