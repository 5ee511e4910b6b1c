//! The programs that connect to a server.
use crate::message::{law_the_payload_is_the_whole_content, Message, MessageView};
use vstd::prelude::*;
use vstd::utf8::encode_utf8;

verus! {

/// How many bytes are read from the local side at a time.
pub const STDIN_BUF: usize = 1024;

/// How many seconds the client stays after the connection has failed.
pub const LINGER_SECS: u64 = 1;

/// `url::ParseError`: why a text is no URL.
#[verifier::external_type_specification]
#[verifier::external_body]
pub struct ExUrlParseError(url::ParseError);

/// What `url::Url::parse` makes of a text: the URL written out, or why it is none.
pub uninterp spec fn parsed_url(text: Seq<char>) -> Result<Seq<char>, url::ParseError>;

/// `url::Url::parse`, and the text of the URL that it gives. What that is depends on the
/// argument alone; it goes by the name of [`parsed_url`].
#[verifier::external_body]
fn parse_url(text: &str) -> (url: Result<String, url::ParseError>)
    ensures
        (match url {
            Ok(url) => Ok(url@),
            Err(cause) => Err(cause),
        }) == parsed_url(text@),
{
    url::Url::parse(text).map(|url| url.as_str().to_owned())
}

/// A text that is no URL.
#[derive(Debug)]
pub struct UrlError {
    pub cause: url::ParseError,
}

/// Why a program cannot go on.
#[derive(Debug)]
pub enum Failure {
    /// There is no such URL.
    Url(UrlError),
    /// The connection could not be opened.
    Connect(String),
    /// The local side did not take the bytes.
    Write(String),
    /// The message could not go out to the server.
    Send(String),
}

/// What happened to a connection.
#[derive(Debug)]
pub enum ConnectEvent {
    /// Connect to this URL.
    Start { url: String },
    /// The connection is open, or could not be opened.
    Connected(Result<(), String>),
    /// The server sent a message, or failed, or (`None`) is done.
    Incoming(Option<Result<Message, String>>),
    /// The local side has filled this much of the buffer, or failed.
    Local { buf: Vec<u8>, nread: Result<usize, String> },
    /// The local side has taken the bytes, or has not.
    Written(Result<(), String>),
    /// The message has gone out to the server, or could not.
    Sent(Result<(), String>),
    /// The time is over.
    Lingered,
}

/// What to do next for a connection.
#[derive(Debug)]
pub enum ConnectAction {
    /// Connect to this URL.
    Dial { url: String },
    /// Give up at once: the program cannot go on.
    Abort(Failure),
    /// Wait for the server or the local side, whichever is first, with a buffer of zeros.
    Select { buf_len: usize },
    /// Write these bytes to the local side.
    Write(Vec<u8>),
    /// Send this message to the server.
    Send(Message),
    /// Wait for some seconds.
    Linger { secs: u64 },
    /// End.
    Finish,
}

/// The model of [`ConnectAction`].
pub enum ConnectActionView {
    Dial { url: Seq<char> },
    Abort(Failure),
    Select { buf_len: usize },
    Write(Seq<u8>),
    Send(MessageView),
    Linger { secs: u64 },
    Finish,
}

impl View for ConnectAction {
    type V = ConnectActionView;

    open spec fn view(&self) -> ConnectActionView {
        match *self {
            ConnectAction::Dial { url } => ConnectActionView::Dial { url: url@ },
            ConnectAction::Abort(failure) => ConnectActionView::Abort(failure),
            ConnectAction::Select { buf_len } => ConnectActionView::Select { buf_len },
            ConnectAction::Write(data) => ConnectActionView::Write(data@),
            ConnectAction::Send(msg) => ConnectActionView::Send(msg@),
            ConnectAction::Linger { secs } => ConnectActionView::Linger { secs },
            ConnectAction::Finish => ConnectActionView::Finish,
        }
    }
}

/// The first `n` elements, or all of them if there are fewer.
pub open spec fn at_most<T>(s: Seq<T>, n: usize) -> Seq<T> {
    if n < s.len() {
        s.take(n as int)
    } else {
        s
    }
}

/// Where to connect to, given what became of the URL.
pub open spec fn dial_spec(url: Result<Seq<char>, url::ParseError>) -> ConnectActionView {
    match url {
        Ok(url) => ConnectActionView::Dial { url },
        Err(cause) => ConnectActionView::Abort(Failure::Url(UrlError { cause })),
    }
}

/// What follows each event.
pub open spec fn connect_step(event: ConnectEvent) -> ConnectActionView {
    let select = ConnectActionView::Select { buf_len: STDIN_BUF };
    match event {
        ConnectEvent::Start { url } => dial_spec(parsed_url(url@)),
        ConnectEvent::Connected(Ok(_)) => select,
        ConnectEvent::Connected(Err(text)) => ConnectActionView::Abort(Failure::Connect(text)),
        ConnectEvent::Incoming(Some(Ok(msg))) => ConnectActionView::Write(msg@.data()),
        ConnectEvent::Incoming(Some(Err(_))) => ConnectActionView::Linger { secs: LINGER_SECS },
        ConnectEvent::Incoming(None) => ConnectActionView::Finish,
        ConnectEvent::Local { buf, nread: Ok(nread) } => ConnectActionView::Send(
            MessageView::Binary(at_most(buf@, nread)),
        ),
        ConnectEvent::Local { buf: _, nread: Err(_) } => select,
        ConnectEvent::Written(Ok(_)) => select,
        ConnectEvent::Written(Err(text)) => ConnectActionView::Abort(Failure::Write(text)),
        ConnectEvent::Sent(Ok(_)) => select,
        ConnectEvent::Sent(Err(text)) => ConnectActionView::Abort(Failure::Send(text)),
        ConnectEvent::Lingered => ConnectActionView::Finish,
    }
}

/// Where to connect to, given what became of the URL.
pub fn dial(url: Result<String, UrlError>) -> (action: ConnectAction)
    ensures
        action == (match url {
            Ok(url) => ConnectAction::Dial { url },
            Err(error) => ConnectAction::Abort(Failure::Url(error)),
        }),
{
    match url {
        Ok(url) => ConnectAction::Dial { url },
        Err(error) => ConnectAction::Abort(Failure::Url(error)),
    }
}

/// Reads a URL.
pub fn read_url(text: &str) -> (url: Result<String, UrlError>)
    ensures
        (match url {
            Ok(url) => Ok(url@),
            Err(error) => Err(error.cause),
        }) == parsed_url(text@),
{
    match parse_url(text) {
        Ok(url) => Ok(url),
        Err(cause) => Err(UrlError { cause }),
    }
}

/// Takes a connection from one outside event to the next thing it needs done. What the server
/// sends goes to the local side; what the local side gives goes to the server.
pub fn new_connect(event: ConnectEvent) -> (action: ConnectAction)
    ensures
        action@ == connect_step(event),
{
    match event {
        ConnectEvent::Start { url } => dial(read_url(url.as_str())),
        ConnectEvent::Connected(Ok(_)) => ConnectAction::Select { buf_len: STDIN_BUF },
        ConnectEvent::Connected(Err(text)) => ConnectAction::Abort(Failure::Connect(text)),
        ConnectEvent::Incoming(Some(Ok(msg))) => ConnectAction::Write(msg.into_data()),
        ConnectEvent::Incoming(Some(Err(_))) => ConnectAction::Linger { secs: LINGER_SECS },
        ConnectEvent::Incoming(None) => ConnectAction::Finish,
        ConnectEvent::Local { buf, nread: Ok(nread) } => {
            let mut stdin_buf = buf;
            stdin_buf.truncate(nread);
            proof {
                assert(stdin_buf@ =~= at_most(buf@, nread));
            }
            ConnectAction::Send(Message::binary(stdin_buf))
        },
        ConnectEvent::Local { buf: _, nread: Err(_) } => {
            ConnectAction::Select { buf_len: STDIN_BUF }
        },
        ConnectEvent::Written(Ok(_)) => ConnectAction::Select { buf_len: STDIN_BUF },
        ConnectEvent::Written(Err(text)) => ConnectAction::Abort(Failure::Write(text)),
        ConnectEvent::Sent(Ok(_)) => ConnectAction::Select { buf_len: STDIN_BUF },
        ConnectEvent::Sent(Err(text)) => ConnectAction::Abort(Failure::Send(text)),
        ConnectEvent::Lingered => ConnectAction::Finish,
    }
}

/// The messages that the server sent.
pub open spec fn incoming(events: Seq<ConnectEvent>) -> Seq<MessageView>
    decreases events.len(),
{
    if events.len() == 0 {
        Seq::empty()
    } else {
        let before = incoming(events.drop_last());
        match events.last() {
            ConnectEvent::Incoming(Some(Ok(msg))) => before.push(msg@),
            _ => before,
        }
    }
}

/// The payloads of some messages, one after the other.
pub open spec fn payloads(messages: Seq<MessageView>) -> Seq<u8>
    decreases messages.len(),
{
    if messages.len() == 0 {
        Seq::empty()
    } else {
        payloads(messages.drop_last()) + messages.last().data()
    }
}

/// Everything that was written to the local side.
pub open spec fn written(events: Seq<ConnectEvent>) -> Seq<u8>
    decreases events.len(),
{
    if events.len() == 0 {
        Seq::empty()
    } else {
        let before = written(events.drop_last());
        match connect_step(events.last()) {
            ConnectActionView::Write(data) => before + data,
            _ => before,
        }
    }
}

/// What the local side gave, one piece for each read.
pub open spec fn pieces(events: Seq<ConnectEvent>) -> Seq<MessageView>
    decreases events.len(),
{
    if events.len() == 0 {
        Seq::empty()
    } else {
        let before = pieces(events.drop_last());
        match events.last() {
            ConnectEvent::Local { buf, nread: Ok(nread) } => before.push(
                MessageView::Binary(at_most(buf@, nread)),
            ),
            _ => before,
        }
    }
}

/// The messages that were sent to the server.
pub open spec fn sent(events: Seq<ConnectEvent>) -> Seq<MessageView>
    decreases events.len(),
{
    if events.len() == 0 {
        Seq::empty()
    } else {
        let before = sent(events.drop_last());
        match connect_step(events.last()) {
            ConnectActionView::Send(msg) => before.push(msg),
            _ => before,
        }
    }
}

/// The local side is given what the server sent, byte for byte.
pub proof fn law_output_is_what_the_server_sent(events: Seq<ConnectEvent>)
    ensures
        written(events) == payloads(incoming(events)),
    decreases events.len(),
{
    if events.len() > 0 {
        law_output_is_what_the_server_sent(events.drop_last());
        match events.last() {
            ConnectEvent::Incoming(Some(Ok(msg))) => {
                let before = incoming(events.drop_last());
                assert(before.push(msg@).drop_last() =~= before);
            },
            _ => {},
        }
    }
}

/// The server is sent what the local side gave, as one binary message for each read.
pub proof fn law_input_goes_to_the_server(events: Seq<ConnectEvent>)
    ensures
        sent(events) == pieces(events),
    decreases events.len(),
{
    if events.len() > 0 {
        law_input_goes_to_the_server(events.drop_last());
    }
}

/// An open connection ends, at once or after a while, only when the server is done or has
/// failed; in particular it outlives the local input. It is given up only when something could
/// not be passed on.
pub proof fn law_only_the_server_ends_a_connection(event: ConnectEvent)
    requires
        !(event is Start),
        !(event is Lingered),
    ensures
        connect_step(event) is Finish <==> event == ConnectEvent::Incoming(None),
        connect_step(event) is Linger <==> event matches ConnectEvent::Incoming(Some(Err(_))),
        connect_step(event) is Abort <==> match event {
            ConnectEvent::Connected(result) => result is Err,
            ConnectEvent::Written(result) => result is Err,
            ConnectEvent::Sent(result) => result is Err,
            _ => false,
        },
{
}

/// `event` can be the answer to `action`.
pub open spec fn connect_answers(action: ConnectActionView, event: ConnectEvent) -> bool {
    match action {
        ConnectActionView::Dial { .. } => event is Connected,
        ConnectActionView::Abort(_) => false,
        ConnectActionView::Select { .. } => event is Incoming || event is Local,
        ConnectActionView::Write(_) => event is Written,
        ConnectActionView::Send(_) => event is Sent,
        ConnectActionView::Linger { .. } => event is Lingered,
        ConnectActionView::Finish => false,
    }
}

/// `events` is what can happen to one connection, from the start.
pub open spec fn connect_run(events: Seq<ConnectEvent>) -> bool {
    &&& events.len() > 0 ==> events[0] is Start
    &&& forall|i: int|
        0 <= i < events.len() - 1 ==> connect_answers(
            connect_step(#[trigger] events[i]),
            events[i + 1],
        )
}

/// Nothing follows the end of a connection, however it ended.
pub proof fn law_nothing_follows_the_end(events: Seq<ConnectEvent>, i: int)
    requires
        connect_run(events),
        0 <= i < events.len(),
        connect_step(events[i]) is Finish || connect_step(events[i]) is Abort,
    ensures
        i == events.len() - 1,
{
    if i < events.len() - 1 {
        assert(connect_answers(connect_step(events[i]), events[i + 1]));
    }
}

/// A text that is no URL is not connected to, and where no connection can be opened nothing
/// else happens: nothing is read, written or sent.
pub proof fn law_no_connection_does_nothing(events: Seq<ConnectEvent>)
    requires
        connect_run(events),
        events.len() > 0,
    ensures
        parsed_url(events[0]->url@) is Err ==> {
            &&& events.len() == 1
            &&& connect_step(events[0]) == ConnectActionView::Abort(
                Failure::Url(UrlError { cause: parsed_url(events[0]->url@)->Err_0 }),
            )
        },
        parsed_url(events[0]->url@) matches Ok(url) ==> connect_step(events[0]) == (
        ConnectActionView::Dial { url }),
        events.len() > 1 ==> events[1] is Connected,
        events.len() > 1 ==> (events[1] matches ConnectEvent::Connected(Err(text)) ==> {
            &&& events.len() == 2
            &&& connect_step(events[1]) == ConnectActionView::Abort(Failure::Connect(text))
            &&& written(events) == Seq::<u8>::empty()
            &&& sent(events) == Seq::<MessageView>::empty()
        }),
{
    if events.len() > 1 {
        assert(connect_answers(connect_step(events[0]), events[0int + 1]));
        if events.len() > 2 {
            assert(connect_answers(connect_step(events[1]), events[1int + 1]));
        } else {
            reveal_with_fuel(written, 3);
            reveal_with_fuel(sent, 3);
            assert(events.drop_last().last() == events[0]);
        }
    }
}

/// Every byte that was read goes to the server, and no other: the message that is sent holds as
/// many bytes as were read, each in its place.
pub proof fn law_every_byte_read_is_sent(buf: Vec<u8>, nread: usize)
    requires
        nread <= buf@.len(),
    ensures
        connect_step(ConnectEvent::Local { buf, nread: Ok(nread) }) matches ConnectActionView::Send(
            MessageView::Binary(data),
        ) && data.len() == nread && forall|i: int| 0 <= i < nread ==> #[trigger] data[i] == buf@[i],
        connect_step(ConnectEvent::Local { buf, nread: Ok(nread) }) == ConnectActionView::Send(
            MessageView::Binary(buf@.take(nread as int)),
        ),
{
    assert(buf@.take(buf@.len() as int) =~= buf@);
}

/// Cutting one read in two sends the same bytes in the same order.
pub proof fn law_a_read_can_be_cut_in_two(buf: Vec<u8>, other: Vec<u8>, nread: usize, rest: usize)
    requires
        nread <= buf@.len(),
        other@ == buf@.skip(nread as int),
        rest <= other@.len(),
        nread + rest <= usize::MAX,
    ensures
        ({
            let whole = connect_step(
                ConnectEvent::Local { buf, nread: Ok((nread + rest) as usize) },
            );
            let first = connect_step(ConnectEvent::Local { buf, nread: Ok(nread) });
            let second = connect_step(ConnectEvent::Local { buf: other, nread: Ok(rest) });
            &&& whole matches ConnectActionView::Send(all)
            &&& first matches ConnectActionView::Send(one)
            &&& second matches ConnectActionView::Send(two)
            &&& all.data() == one.data() + two.data()
        }),
{
    assert(buf@.take(buf@.len() as int) =~= buf@);
    assert(other@.take(other@.len() as int) =~= other@);
    assert(buf@.take(nread + rest) =~= buf@.take(nread as int) + other@.take(rest as int));
}

/// A message from the server is written to the local side with its whole payload.
pub proof fn law_every_byte_received_is_written(msg: Message)
    ensures
        connect_step(ConnectEvent::Incoming(Some(Ok(msg)))) matches ConnectActionView::Write(
            bytes,
        ) && match msg {
            Message::Text(text) => bytes == encode_utf8(text@),
            Message::Binary(data) => bytes == data@,
            Message::Ping(data) => bytes == data@,
            Message::Pong(data) => bytes == data@,
            Message::Close(None) => bytes.len() == 0,
            Message::Close(Some(frame)) => bytes == encode_utf8(frame.reason@),
        },
{
    law_the_payload_is_the_whole_content(msg);
}

/// What is done for a connection on the other events. With nothing to pass on, it waits for the
/// server and for up to 1024 bytes from the local side.
pub proof fn law_what_is_done_for_a_connection(event: ConnectEvent)
    ensures
        match event {
            ConnectEvent::Start { url } => match parsed_url(url@) {
                Ok(there) => connect_step(event) == (ConnectActionView::Dial { url: there }),
                Err(cause) => connect_step(event) == ConnectActionView::Abort(
                    Failure::Url(UrlError { cause }),
                ),
            },
            ConnectEvent::Connected(Err(text)) => connect_step(event) == ConnectActionView::Abort(
                Failure::Connect(text),
            ),
            ConnectEvent::Written(Err(text)) => connect_step(event) == ConnectActionView::Abort(
                Failure::Write(text),
            ),
            ConnectEvent::Sent(Err(text)) => connect_step(event) == ConnectActionView::Abort(
                Failure::Send(text),
            ),
            ConnectEvent::Incoming(None) => connect_step(event) is Finish,
            ConnectEvent::Incoming(Some(Err(_))) => connect_step(event) == (
            ConnectActionView::Linger { secs: 1 }),
            ConnectEvent::Lingered => connect_step(event) is Finish,
            ConnectEvent::Incoming(Some(Ok(_))) => connect_step(event) is Write,
            ConnectEvent::Local { nread: Ok(_), .. } => connect_step(event) is Send,
            _ => connect_step(event) == (ConnectActionView::Select { buf_len: 1024 }),
        },
{
}

/// A read that claims more than the buffer holds is taken to have filled it.
pub proof fn law_no_more_than_the_buffer_is_sent(buf: Vec<u8>, nread: usize)
    requires
        nread >= buf@.len(),
    ensures
        connect_step(ConnectEvent::Local { buf, nread: Ok(nread) }) == ConnectActionView::Send(
            MessageView::Binary(buf@),
        ),
{
}

/// The model of what is to be done holds what the value does.
pub proof fn law_the_model_holds_what_is_to_be_done(action: ConnectAction)
    ensures
        match action {
            ConnectAction::Dial { url } => action@ == (ConnectActionView::Dial { url: url@ }),
            ConnectAction::Abort(failure) => action@ == ConnectActionView::Abort(failure),
            ConnectAction::Select { buf_len } => action@ == (ConnectActionView::Select { buf_len }),
            ConnectAction::Write(data) => action@ == ConnectActionView::Write(data@),
            ConnectAction::Send(msg) => action@ == ConnectActionView::Send(msg@),
            ConnectAction::Linger { secs } => action@ == (ConnectActionView::Linger { secs }),
            ConnectAction::Finish => action@ is Finish,
        },
{
}

} // verus!
