use vstd::prelude::*;
use crate::message::{MsgId, NodeId, ProtocolError};
use crate::protocols::protocol::NodeProtocol;

verus! {

/// Answers each request with its own text.
pub struct EchoProtocol;

#[derive(Debug, Clone)]
pub struct Echo {
    pub echo: String,
}

#[derive(Debug, Clone)]
pub struct EchoOk {
    pub echo: String,
}

impl NodeProtocol for EchoProtocol {
    type Request = Echo;
    type Response = EchoOk;

    open spec fn answers(&self, request: Echo, src: Seq<char>, after: Self, r: Result<EchoOk, ProtocolError>) -> bool {
        r matches Ok(ok) && ok.echo@ == request.echo@
    }

    open spec fn accepts(&self, response: EchoOk, src: Seq<char>, after: Self, r: Result<(), ProtocolError>) -> bool {
        r is Ok
    }

    fn new() -> Self {
        EchoProtocol
    }

    fn handle_request(&mut self, request: &Echo, msg_id: MsgId, src: &NodeId) -> Result<EchoOk, ProtocolError> {
        Ok(EchoOk { echo: request.echo.clone() })
    }

    fn handle_response(&mut self, response: &EchoOk, src: &NodeId, in_reply_to: MsgId) -> Result<(), ProtocolError> {
        Ok(())
    }
}

} // verus!
