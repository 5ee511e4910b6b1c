//! Websocket messages.
use vstd::prelude::*;
use vstd::utf8::encode_utf8;

verus! {

/// Why a connection was closed.
#[derive(Debug, PartialEq, Eq)]
pub struct CloseFrame {
    pub code: u16,
    pub reason: String,
}

/// A websocket message.
#[derive(Debug, PartialEq, Eq)]
pub enum Message {
    Text(String),
    Binary(Vec<u8>),
    Ping(Vec<u8>),
    Pong(Vec<u8>),
    Close(Option<CloseFrame>),
}

/// What a message holds.
pub enum MessageView {
    Text(Seq<char>),
    Binary(Seq<u8>),
    Ping(Seq<u8>),
    Pong(Seq<u8>),
    Close(Option<(u16, Seq<char>)>),
}

impl View for Message {
    type V = MessageView;

    open spec fn view(&self) -> MessageView {
        match self {
            Message::Text(text) => MessageView::Text(text@),
            Message::Binary(data) => MessageView::Binary(data@),
            Message::Ping(data) => MessageView::Ping(data@),
            Message::Pong(data) => MessageView::Pong(data@),
            Message::Close(None) => MessageView::Close(None),
            Message::Close(Some(frame)) => MessageView::Close(Some((frame.code, frame.reason@))),
        }
    }
}

impl MessageView {
    /// The payload: the text in UTF-8, the bytes as they are, or the reason for closing.
    pub open spec fn data(self) -> Seq<u8> {
        match self {
            MessageView::Text(text) => encode_utf8(text),
            MessageView::Binary(data) => data,
            MessageView::Ping(data) => data,
            MessageView::Pong(data) => data,
            MessageView::Close(None) => Seq::empty(),
            MessageView::Close(Some(frame)) => encode_utf8(frame.1),
        }
    }
}

impl Clone for Message {
    fn clone(&self) -> (copy: Message)
        ensures
            copy@ == self@,
    {
        match self {
            Message::Text(text) => Message::Text(text.clone()),
            Message::Binary(data) => Message::Binary(copy_bytes(data)),
            Message::Ping(data) => Message::Ping(copy_bytes(data)),
            Message::Pong(data) => Message::Pong(copy_bytes(data)),
            Message::Close(None) => Message::Close(None),
            Message::Close(Some(frame)) => Message::Close(
                Some(CloseFrame { code: frame.code, reason: frame.reason.clone() }),
            ),
        }
    }
}

fn copy_bytes(data: &Vec<u8>) -> (copy: Vec<u8>)
    ensures
        copy@ == data@,
{
    let copy = data.clone();
    assert(copy@ =~= data@);
    copy
}

impl Message {
    /// A binary message that carries `data`.
    pub fn binary(data: Vec<u8>) -> (msg: Message)
        ensures
            msg == Message::Binary(data),
    {
        Message::Binary(data)
    }

    /// The payload of this message.
    pub fn into_data(self) -> (data: Vec<u8>)
        ensures
            data@ == self@.data(),
    {
        outside_into_data(self)
    }
}

/// `tungstenite::Message::into_data`: the payload of a message. Text and the reason of a close
/// frame come as UTF-8, the other kinds as their bytes; a close without a frame has no payload.
#[verifier::external_body]
fn outside_into_data(msg: Message) -> (data: Vec<u8>)
    ensures
        data@ == msg@.data(),
{
    let outside = match msg {
        Message::Text(text) => tungstenite::Message::Text(text),
        Message::Binary(data) => tungstenite::Message::Binary(data),
        Message::Ping(data) => tungstenite::Message::Ping(data),
        Message::Pong(data) => tungstenite::Message::Pong(data),
        Message::Close(None) => tungstenite::Message::Close(None),
        Message::Close(Some(frame)) => tungstenite::Message::Close(
            Some(tungstenite::protocol::CloseFrame { code: frame.code.into(), reason: frame.reason.into() }),
        ),
    };
    outside.into_data()
}

/// Messages with the same model are of one kind and hold the same.
pub proof fn law_the_model_tells_messages_apart(left: Message, right: Message)
    requires
        left@ == right@,
    ensures
        match (left, right) {
            (Message::Text(a), Message::Text(b)) => a@ == b@,
            (Message::Binary(a), Message::Binary(b)) => a@ == b@,
            (Message::Ping(a), Message::Ping(b)) => a@ == b@,
            (Message::Pong(a), Message::Pong(b)) => a@ == b@,
            (Message::Close(None), Message::Close(None)) => true,
            (Message::Close(Some(a)), Message::Close(Some(b))) => a.code == b.code && a.reason@
                == b.reason@,
            _ => false,
        },
{
}

/// The payload of a message is all of the bytes that it carries, or all of its text in UTF-8.
pub proof fn law_the_payload_is_the_whole_content(msg: Message)
    ensures
        msg matches Message::Text(text) ==> msg@ == MessageView::Text(text@) && msg@.data()
            == encode_utf8(text@),
        msg matches Message::Binary(data) ==> msg@ == MessageView::Binary(data@) && msg@.data()
            == data@,
        msg matches Message::Ping(data) ==> msg@ == MessageView::Ping(data@) && msg@.data() == data@,
        msg matches Message::Pong(data) ==> msg@ == MessageView::Pong(data@) && msg@.data() == data@,
        msg matches Message::Close(None) ==> msg@ == MessageView::Close(None) && msg@.data().len()
            == 0,
        msg matches Message::Close(Some(frame)) ==> msg@ == MessageView::Close(
            Some((frame.code, frame.reason@)),
        ) && msg@.data() == encode_utf8(frame.reason@),
{
}

} // verus!
