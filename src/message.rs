use vstd::prelude::*;

verus! {

/// Identifies a node of the cluster.
pub type NodeId = String;

/// Correlates a response with the request that caused it.
pub type MsgId = u64;

/// Why a node gives up on its input.
#[derive(Debug, Clone, Copy, PartialEq, Eq, Structural)]
pub enum ProtocolError {
    /// A reply was asked for a message that is itself a response.
    ExpectedRequest,
    /// A message arrived before the handshake.
    NotInitialized,
    /// A second handshake request arrived.
    AlreadyInitialized,
    /// A workload received a response it never asks for.
    UnexpectedResponse,
    /// A topology that does not mention this node.
    MissingOwnTopology,
    /// A counter would no longer fit its machine integer.
    CounterOverflow,
    /// Every message identifier has been handed out.
    MsgIdsExhausted,
}

/// The payload of a message: a request carries its own id, a response the id it answers.
#[derive(Debug, Clone)]
pub enum MessageBody<Request, Response> {
    Request { msg_id: MsgId, request: Request },
    Response { in_reply_to: MsgId, response: Response },
}

/// One message on the wire.
#[derive(Debug, Clone)]
pub struct Message<Request, Response> {
    pub src: NodeId,
    pub dest: NodeId,
    pub body: MessageBody<Request, Response>,
}

impl<Request, Response> Message<Request, Response> {
    /// The response to this message, sent back to where it came from.
    pub fn respond_with(&self, response: Response) -> (r: Result<Message<Request, Response>, ProtocolError>)
        ensures
            match self.body {
                MessageBody::Request { msg_id, .. } => r matches Ok(m) && m.src@ == self.dest@
                    && m.dest@ == self.src@ && m.body == (MessageBody::<Request, Response>::Response {
                        in_reply_to: msg_id,
                        response,
                    }),
                MessageBody::Response { .. } => r == Err::<Message<Request, Response>, ProtocolError>(
                    ProtocolError::ExpectedRequest,
                ),
            },
    {
        match &self.body {
            MessageBody::Request { msg_id, .. } => Ok(
                Message {
                    src: self.dest.clone(),
                    dest: self.src.clone(),
                    body: MessageBody::Response { in_reply_to: *msg_id, response },
                },
            ),
            MessageBody::Response { .. } => Err(ProtocolError::ExpectedRequest),
        }
    }
}

} // verus!
