//! The WebSocket client: data travels in binary messages.
use vstd::prelude::*;
use crate::plumber::{Plumber, ProcessorKind};
use crate::utils::{IoError, io_other_error};

verus! {

/// Registers the client as `ws_client`.
pub fn register(plumber: &mut Plumber)
    ensures
        final(plumber)@ == old(plumber)@.push(("ws_client"@, ProcessorKind::WsClient)),
{
    plumber.register("ws_client", ProcessorKind::WsClient);
}

/// A message (or failure) from the WebSocket.
pub enum WsIncoming {
    Binary(Vec<u8>),
    Close,
    /// A text, ping or pong message.
    Other,
    /// The socket failed, with its error text.
    Error(String),
}

/// What a message means for the byte stream.
pub enum WsItem {
    /// These bytes come next.
    Data(Vec<u8>),
    /// The message is dropped from the stream.
    Skip,
    /// The stream fails.
    Fail(IoError),
}

/// Binary messages carry data, a close is dropped, any other message or a
/// socket error fails the stream.
pub fn incoming_item(msg: WsIncoming) -> (r: WsItem)
    ensures
        match msg {
            WsIncoming::Binary(d) => r matches WsItem::Data(e) && e@ == d@,
            WsIncoming::Close => r is Skip,
            WsIncoming::Other => r matches WsItem::Fail(IoError::Other(m)) && m@ == "unexpected message type"@,
            WsIncoming::Error(t) => r matches WsItem::Fail(IoError::Other(m)) && m@ == t@,
        },
{
    match msg {
        WsIncoming::Binary(d) => WsItem::Data(d),
        WsIncoming::Close => WsItem::Skip,
        WsIncoming::Other => WsItem::Fail(io_other_error("unexpected message type")),
        WsIncoming::Error(t) => WsItem::Fail(io_other_error(t.as_str())),
    }
}

} // verus!
