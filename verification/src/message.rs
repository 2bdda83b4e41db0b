use vstd::prelude::*;
use crate::error::NodeError;

verus! {

/// What travels inside an envelope: the sender's message id, the id of the
/// request this answers (if any), and the payload proper.
#[derive(Debug, PartialEq, Eq)]
pub struct Body<P> {
    pub id: Option<u64>,
    pub in_reply_to: Option<u64>,
    pub payload: P,
}

/// An addressed envelope.
#[derive(Debug, PartialEq, Eq)]
pub struct Message<P> {
    pub src: String,
    pub dst: String,
    pub body: Body<P>,
}

/// The mathematical content of an envelope whose payload has model `PV`.
pub struct MessageView<PV> {
    pub src: Seq<char>,
    pub dst: Seq<char>,
    pub id: Option<u64>,
    pub in_reply_to: Option<u64>,
    pub payload: PV,
}

impl<P: View> View for Message<P> {
    type V = MessageView<P::V>;

    open spec fn view(&self) -> MessageView<P::V> {
        MessageView {
            src: self.src@,
            dst: self.dst@,
            id: self.body.id,
            in_reply_to: self.body.in_reply_to,
            payload: self.body.payload@,
        }
    }
}

/// The models of a run of envelopes, in order.
pub open spec fn views<P: View>(messages: Seq<Message<P>>) -> Seq<MessageView<P::V>> {
    Seq::new(messages.len(), |i: int| messages[i]@)
}

/// The answer to `request` that carries `payload`: addresses swapped,
/// `in_reply_to` set to the request's id, and `id` as given.
pub open spec fn reply_view<PV>(request: MessageView<PV>, id: Option<u64>, payload: PV)
    -> MessageView<PV> {
    MessageView { src: request.dst, dst: request.src, id, in_reply_to: request.id, payload }
}

/// An envelope that opens an exchange: it answers nothing and carries no id.
pub open spec fn notice_view<PV>(src: Seq<char>, dst: Seq<char>, payload: PV) -> MessageView<PV> {
    MessageView { src, dst, id: None, in_reply_to: None, payload }
}

impl<P> Message<P> {
    /// Turns an inbound envelope into the skeleton of its answer. The
    /// addresses are swapped, `in_reply_to` takes the inbound id, and the
    /// payload is carried over for the caller to replace. With a counter, the
    /// answer takes the counter's value as its id and the counter moves on by
    /// one, whether or not the answer is ever sent.
    pub fn into_reply(self, id: Option<&mut u64>) -> (reply: Message<P>)
        requires
            id matches Some(counter) ==> *counter < u64::MAX,
        ensures
            reply.src == self.dst,
            reply.dst == self.src,
            reply.body.in_reply_to == self.body.id,
            reply.body.payload == self.body.payload,
            match id {
                Some(counter) => reply.body.id == Some(*counter) && *final(counter) == *counter
                    + 1,
                None => reply.body.id is None,
            },
    {
        let fresh = match id {
            Some(counter) => {
                let mid = *counter;
                *counter = mid + 1;
                Some(mid)
            },
            None => None,
        };
        Message {
            src: self.dst,
            dst: self.src,
            body: Body { id: fresh, in_reply_to: self.body.id, payload: self.body.payload },
        }
    }
}

/// What the event loop hands to a node, one at a time.
#[derive(Debug, PartialEq, Eq)]
pub enum Event<P, IP> {
    /// An envelope read from the wire.
    Message(Message<P>),
    /// Something a background producer of the node itself asked for.
    Injected(IP),
    /// The input has closed; nothing follows.
    EOF,
}

impl<P, IP> Event<P, IP> {
    /// Whether nothing follows this event: the event loop hands it to the
    /// node and then stops.
    pub fn is_last(&self) -> (last: bool)
        ensures
            last == (self is EOF),
    {
        match self {
            Event::EOF => true,
            _ => false,
        }
    }
}

/// What a node learns at the handshake: its own name and the cluster's.
#[derive(Debug, PartialEq, Eq)]
pub struct Init {
    pub node_id: String,
    pub node_ids: Vec<String>,
}

/// The payloads of the handshake.
#[derive(Debug, PartialEq, Eq)]
pub enum InitPayload {
    Init(Init),
    InitOk,
}

/// The model of a handshake payload.
pub enum InitPayloadView {
    Init { node_id: Seq<char>, node_ids: Seq<Seq<char>> },
    InitOk,
}

impl View for InitPayload {
    type V = InitPayloadView;

    open spec fn view(&self) -> InitPayloadView {
        match *self {
            InitPayload::Init(init) => InitPayloadView::Init {
                node_id: init.node_id@,
                node_ids: init.node_ids.deep_view(),
            },
            InitPayload::InitOk => InitPayloadView::InitOk,
        }
    }
}

/// The id of the handshake's acknowledgement; the ids a node hands out
/// afterwards start above it.
pub const INIT_OK_ID: u64 = 0;

/// The first exchange of a run. The first envelope must be an init request:
/// it yields the init data and the acknowledgement to send back before
/// anything else is processed. Any other first envelope is a protocol
/// violation.
pub fn handshake(first: Message<InitPayload>) -> (r: Result<(Init, Message<InitPayload>), NodeError>)
    ensures
        match first.body.payload {
            InitPayload::Init(init) => r matches Ok((got, ack)) && got == init && ack@
                == reply_view(first@, Some(INIT_OK_ID), InitPayloadView::InitOk),
            InitPayload::InitOk => r == Err::<(Init, Message<InitPayload>), NodeError>(
                NodeError::ExpectedInit,
            ),
        },
{
    let Message { src, dst, body } = first;
    match body.payload {
        InitPayload::Init(init) => {
            let ack = Message {
                src: dst,
                dst: src,
                body: Body {
                    id: Some(INIT_OK_ID),
                    in_reply_to: body.id,
                    payload: InitPayload::InitOk,
                },
            };
            Ok((init, ack))
        },
        InitPayload::InitOk => Err(NodeError::ExpectedInit),
    }
}

} // verus!
