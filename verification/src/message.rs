//! The application-level message: a closed tagged union exchanged between
//! client and server, one message per wire frame.

use vstd::prelude::*;

verus! {

/// One protocol message. Produced by decoding a frame or by application
/// logic, consumed exactly once by encoding or by the dispatcher.
#[derive(Debug)]
pub enum MessageType {
    /// A chat line to persist under the sender's name.
    Text(String),
    /// Raw bytes of an image to re-encode and store.
    Image(Vec<u8>),
    /// A named file to store verbatim: name, then contents.
    File(String, Vec<u8>),
    /// Ends the connection.
    Quit,
    /// An error report sent back to the peer.
    Error(String),
    /// Request to authenticate as an existing user.
    Login(String),
    /// Request to create a user and authenticate as it.
    Register(String),
}

/// The mathematical shape of a message: strings as character sequences,
/// blobs as byte sequences.
pub enum MsgView {
    Text(Seq<char>),
    Image(Seq<u8>),
    File(Seq<char>, Seq<u8>),
    Quit,
    Error(Seq<char>),
    Login(Seq<char>),
    Register(Seq<char>),
}

/// The views of a run of messages, in order.
pub open spec fn msg_view_seq(s: Seq<MessageType>) -> Seq<MsgView> {
    s.map_values(|m: MessageType| m@)
}

impl View for MessageType {
    type V = MsgView;

    open spec fn view(&self) -> MsgView {
        match self {
            MessageType::Text(t) => MsgView::Text(t@),
            MessageType::Image(b) => MsgView::Image(b@),
            MessageType::File(n, b) => MsgView::File(n@, b@),
            MessageType::Quit => MsgView::Quit,
            MessageType::Error(e) => MsgView::Error(e@),
            MessageType::Login(u) => MsgView::Login(u@),
            MessageType::Register(u) => MsgView::Register(u@),
        }
    }
}

} // verus!
