//! The simpler client: two pipes, one for each direction.
use crate::client::{at_most, parsed_url, payloads, read_url, Failure, UrlError};
use crate::message::{law_the_payload_is_the_whole_content, Message, MessageView};
use vstd::prelude::*;
use vstd::utf8::encode_utf8;

verus! {

/// What to do with what was read from the local side.
#[derive(Debug, PartialEq, Eq)]
pub enum StdinAction {
    /// Send this message, then read on.
    Send(Message),
    /// Send this message, which is the last.
    Close(Message),
}

/// The model of [`StdinAction`].
pub enum StdinActionView {
    Send(MessageView),
    Close(MessageView),
}

impl View for StdinAction {
    type V = StdinActionView;

    open spec fn view(&self) -> StdinActionView {
        match *self {
            StdinAction::Send(msg) => StdinActionView::Send(msg@),
            StdinAction::Close(msg) => StdinActionView::Close(msg@),
        }
    }
}

/// What one read becomes: what was read, or a close message where there is no more or the read
/// failed.
pub open spec fn stdin_step(buf: Seq<u8>, nread: Result<usize, String>) -> StdinActionView {
    match nread {
        Ok(n) if n > 0 => StdinActionView::Send(MessageView::Binary(at_most(buf, n))),
        _ => StdinActionView::Close(MessageView::Close(None)),
    }
}

/// Turns one read into a message.
pub fn read_stdin(buf: Vec<u8>, nread: Result<usize, String>) -> (action: StdinAction)
    ensures
        action@ == stdin_step(buf@, nread),
{
    match nread {
        Err(_) => StdinAction::Close(Message::Close(None)),
        Ok(n) => {
            if n == 0 {
                return StdinAction::Close(Message::Close(None));
            }
            let mut data = buf;
            data.truncate(n);
            proof {
                assert(data@ =~= at_most(buf@, n));
            }
            StdinAction::Send(Message::binary(data))
        },
    }
}

/// One read from the local side: the buffer, and how much of it was filled.
pub struct Read {
    pub buf: Seq<u8>,
    pub nread: Result<usize, String>,
}

/// The reads can follow one another: after a close message there are no more.
pub open spec fn stdin_run(reads: Seq<Read>) -> bool {
    forall|i: int|
        0 <= i < reads.len() - 1 ==> stdin_step((#[trigger] reads[i]).buf, reads[i].nread) is Send
}

/// The messages that were sent for these reads.
pub open spec fn stdin_messages(reads: Seq<Read>) -> Seq<MessageView>
    decreases reads.len(),
{
    if reads.len() == 0 {
        Seq::empty()
    } else {
        let before = stdin_messages(reads.drop_last());
        match stdin_step(reads.last().buf, reads.last().nread) {
            StdinActionView::Send(msg) => before.push(msg),
            StdinActionView::Close(msg) => before.push(msg),
        }
    }
}

proof fn lemma_stdin_messages(reads: Seq<Read>, i: int)
    requires
        0 <= i < reads.len(),
    ensures
        stdin_messages(reads).len() == reads.len(),
        stdin_messages(reads)[i] == match stdin_step(reads[i].buf, reads[i].nread) {
            StdinActionView::Send(msg) => msg,
            StdinActionView::Close(msg) => msg,
        },
    decreases reads.len(),
{
    let earlier = reads.drop_last();
    if earlier.len() > 0 {
        lemma_stdin_messages(earlier, if i < earlier.len() { i } else { 0 });
    } else {
        assert(stdin_messages(earlier).len() == 0);
    }
}

/// Each read becomes one message: a binary one with what was read, until there is no more or a
/// read fails. That one becomes a close message, which is the last; there is no other.
pub proof fn law_input_ends_with_one_close(reads: Seq<Read>, i: int)
    requires
        stdin_run(reads),
        0 <= i < reads.len(),
    ensures
        stdin_messages(reads).len() == reads.len(),
        match reads[i].nread {
            Ok(n) if n > 0 => stdin_messages(reads)[i] == MessageView::Binary(
                at_most(reads[i].buf, n),
            ),
            _ => i == reads.len() - 1 && stdin_messages(reads)[i] == MessageView::Close(None),
        },
{
    lemma_stdin_messages(reads, i);
    if i < reads.len() - 1 {
        assert(stdin_step(reads[i].buf, reads[i].nread) is Send);
    }
}

/// What happened to the pipes.
#[derive(Debug)]
pub enum PipeEvent {
    /// Connect to this URL.
    Start { url: String },
    /// The connection is open, or could not be opened.
    Connected(Result<(), String>),
    /// The server sent a message, or failed, or (`None`) is done.
    Incoming(Option<Result<Message, String>>),
    /// The local side has taken the bytes, or has not.
    Written(Result<(), String>),
    /// Everything that the local side had has been sent, or cannot be.
    OutgoingEnded,
}

/// What to do next for the pipes.
#[derive(Debug)]
pub enum PipeAction {
    /// Connect to this URL.
    Dial { url: String },
    /// Give up at once: the program cannot go on.
    Abort(Failure),
    /// Wait for the server or the end of the local side, whichever is first.
    Wait,
    /// Write these bytes to the local side.
    Write(Vec<u8>),
    /// End.
    Finish,
}

/// The model of [`PipeAction`].
pub enum PipeActionView {
    Dial { url: Seq<char> },
    Abort(Failure),
    Wait,
    Write(Seq<u8>),
    Finish,
}

impl View for PipeAction {
    type V = PipeActionView;

    open spec fn view(&self) -> PipeActionView {
        match *self {
            PipeAction::Dial { url } => PipeActionView::Dial { url: url@ },
            PipeAction::Abort(failure) => PipeActionView::Abort(failure),
            PipeAction::Wait => PipeActionView::Wait,
            PipeAction::Write(data) => PipeActionView::Write(data@),
            PipeAction::Finish => PipeActionView::Finish,
        }
    }
}

/// What follows each event. A message that could not be read is passed over; whichever
/// direction ends first ends both.
pub open spec fn pipe_step(event: PipeEvent) -> PipeActionView {
    match event {
        PipeEvent::Start { url } => match parsed_url(url@) {
            Ok(url) => PipeActionView::Dial { url },
            Err(cause) => PipeActionView::Abort(Failure::Url(UrlError { cause })),
        },
        PipeEvent::Connected(Ok(_)) => PipeActionView::Wait,
        PipeEvent::Connected(Err(text)) => PipeActionView::Abort(Failure::Connect(text)),
        PipeEvent::Incoming(Some(Ok(msg))) => PipeActionView::Write(msg@.data()),
        PipeEvent::Incoming(Some(Err(_))) => PipeActionView::Wait,
        PipeEvent::Incoming(None) => PipeActionView::Finish,
        PipeEvent::Written(Ok(_)) => PipeActionView::Wait,
        PipeEvent::Written(Err(text)) => PipeActionView::Abort(Failure::Write(text)),
        PipeEvent::OutgoingEnded => PipeActionView::Finish,
    }
}

/// Takes the pipes from one outside event to the next thing they need done.
pub fn connect(event: PipeEvent) -> (action: PipeAction)
    ensures
        action@ == pipe_step(event),
{
    match event {
        PipeEvent::Start { url } => match read_url(url.as_str()) {
            Ok(url) => PipeAction::Dial { url },
            Err(error) => PipeAction::Abort(Failure::Url(error)),
        },
        PipeEvent::Connected(Ok(_)) => PipeAction::Wait,
        PipeEvent::Connected(Err(text)) => PipeAction::Abort(Failure::Connect(text)),
        PipeEvent::Incoming(Some(Ok(msg))) => PipeAction::Write(msg.into_data()),
        PipeEvent::Incoming(Some(Err(_))) => PipeAction::Wait,
        PipeEvent::Incoming(None) => PipeAction::Finish,
        PipeEvent::Written(Ok(_)) => PipeAction::Wait,
        PipeEvent::Written(Err(text)) => PipeAction::Abort(Failure::Write(text)),
        PipeEvent::OutgoingEnded => PipeAction::Finish,
    }
}

/// The messages from the server that could be read.
pub open spec fn readable(events: Seq<PipeEvent>) -> Seq<MessageView>
    decreases events.len(),
{
    if events.len() == 0 {
        Seq::empty()
    } else {
        let before = readable(events.drop_last());
        match events.last() {
            PipeEvent::Incoming(Some(Ok(msg))) => before.push(msg@),
            _ => before,
        }
    }
}

/// Everything that was written to the local side.
pub open spec fn piped(events: Seq<PipeEvent>) -> Seq<u8>
    decreases events.len(),
{
    if events.len() == 0 {
        Seq::empty()
    } else {
        let before = piped(events.drop_last());
        match pipe_step(events.last()) {
            PipeActionView::Write(data) => before + data,
            _ => before,
        }
    }
}

/// The local side is given the payloads of the messages that could be read, in order. Those that
/// could not are passed over.
pub proof fn law_what_can_be_read_is_piped(events: Seq<PipeEvent>)
    ensures
        piped(events) == payloads(readable(events)),
    decreases events.len(),
{
    if events.len() > 0 {
        law_what_can_be_read_is_piped(events.drop_last());
        if let PipeEvent::Incoming(Some(Ok(msg))) = events.last() {
            let before = readable(events.drop_last());
            assert(before.push(msg@).drop_last() =~= before);
        }
    }
}

/// `event` can be the answer to `action`. The local side can end at any time.
pub open spec fn pipe_answers(action: PipeActionView, event: PipeEvent) -> bool {
    match action {
        PipeActionView::Dial { .. } => event is Connected,
        PipeActionView::Abort(_) => false,
        PipeActionView::Wait => event is Incoming || event is OutgoingEnded,
        PipeActionView::Write(_) => event is Written || event is OutgoingEnded,
        PipeActionView::Finish => false,
    }
}

/// `events` is what can happen to the pipes, from the start.
pub open spec fn pipe_run(events: Seq<PipeEvent>) -> bool {
    &&& events.len() > 0 ==> events[0] is Start
    &&& forall|i: int|
        0 <= i < events.len() - 1 ==> pipe_answers(pipe_step(#[trigger] events[i]), events[i + 1])
}

/// The pipes end when the server is done or the local side has ended, and are given up when the
/// connection cannot be opened or the local side does not take the bytes. Nothing follows either.
pub proof fn law_either_side_ends_the_pipes(events: Seq<PipeEvent>, i: int)
    requires
        pipe_run(events),
        0 <= i < events.len(),
    ensures
        events[i] is Start <==> i == 0,
        events[i] is Connected <==> i == 1,
        pipe_step(events[i]) is Finish <==> events[i] == PipeEvent::Incoming(None)
            || events[i] is OutgoingEnded,
        pipe_step(events[i]) is Abort <==> match events[i] {
            PipeEvent::Start { url } => parsed_url(url@) is Err,
            PipeEvent::Connected(result) => result is Err,
            PipeEvent::Written(result) => result is Err,
            _ => false,
        },
        pipe_step(events[i]) is Finish || pipe_step(events[i]) is Abort ==> i == events.len() - 1,
    decreases i,
{
    if i > 0 {
        law_either_side_ends_the_pipes(events, i - 1);
        assert(pipe_answers(pipe_step(events[i - 1]), events[i - 1 + 1]));
    }
    if i < events.len() - 1 {
        assert(pipe_answers(pipe_step(events[i]), events[i + 1]));
    }
}

/// Every byte that was read goes to the server, and no other. Where nothing was read, or reading
/// failed, the server is told that there is no more.
pub proof fn law_every_byte_read_is_piped(buf: Seq<u8>, nread: Result<usize, String>)
    ensures
        match nread {
            Ok(n) => if n == 0 {
                stdin_step(buf, nread) == StdinActionView::Close(MessageView::Close(None))
            } else {
                &&& stdin_step(buf, nread) matches StdinActionView::Send(MessageView::Binary(data))
                &&& n <= buf.len() ==> data.len() == n
                &&& n > buf.len() ==> data.len() == buf.len()
                &&& forall|i: int| 0 <= i < data.len() ==> #[trigger] data[i] == buf[i]
            },
            Err(_) => stdin_step(buf, nread) == StdinActionView::Close(MessageView::Close(None)),
        },
{
}

/// What is done for the pipes on each event. A message is written with its whole payload; one
/// that could not be read is passed over.
pub proof fn law_what_is_done_for_the_pipes(event: PipeEvent)
    ensures
        match event {
            PipeEvent::Start { url } => match parsed_url(url@) {
                Ok(there) => pipe_step(event) == (PipeActionView::Dial { url: there }),
                Err(cause) => pipe_step(event) == PipeActionView::Abort(
                    Failure::Url(UrlError { cause }),
                ),
            },
            PipeEvent::Connected(Ok(_)) => pipe_step(event) is Wait,
            PipeEvent::Connected(Err(text)) => pipe_step(event) == PipeActionView::Abort(
                Failure::Connect(text),
            ),
            PipeEvent::Incoming(Some(Ok(msg))) => pipe_step(event) matches PipeActionView::Write(
                bytes,
            ) && match msg {
                Message::Text(text) => bytes == encode_utf8(text@),
                Message::Binary(data) => bytes == data@,
                Message::Ping(data) => bytes == data@,
                Message::Pong(data) => bytes == data@,
                Message::Close(None) => bytes.len() == 0,
                Message::Close(Some(frame)) => bytes == encode_utf8(frame.reason@),
            },
            PipeEvent::Incoming(Some(Err(_))) => pipe_step(event) is Wait,
            PipeEvent::Incoming(None) => pipe_step(event) is Finish,
            PipeEvent::Written(Ok(_)) => pipe_step(event) is Wait,
            PipeEvent::Written(Err(text)) => pipe_step(event) == PipeActionView::Abort(
                Failure::Write(text),
            ),
            PipeEvent::OutgoingEnded => pipe_step(event) is Finish,
        },
{
    if let PipeEvent::Incoming(Some(Ok(msg))) = event {
        law_the_payload_is_the_whole_content(msg);
    }
}

/// The models of what is to be done hold what the values do.
pub proof fn law_the_models_hold_what_is_to_be_done(action: PipeAction, input: StdinAction)
    ensures
        match action {
            PipeAction::Dial { url } => action@ == (PipeActionView::Dial { url: url@ }),
            PipeAction::Abort(failure) => action@ == PipeActionView::Abort(failure),
            PipeAction::Wait => action@ is Wait,
            PipeAction::Write(data) => action@ == PipeActionView::Write(data@),
            PipeAction::Finish => action@ is Finish,
        },
        match input {
            StdinAction::Send(msg) => input@ == StdinActionView::Send(msg@),
            StdinAction::Close(msg) => input@ == StdinActionView::Close(msg@),
        },
{
}

} // verus!
