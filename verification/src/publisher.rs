//! The server's side of a publisher's connection.
use crate::error::Error;
use crate::message::Message;
use vstd::prelude::*;

verus! {

/// What happened to a publisher's connection.
#[derive(Debug, PartialEq, Eq)]
pub enum PublisherEvent {
    /// The connection is open.
    Start,
    /// The publisher sent a message, or failed, or (`None`) is done.
    Incoming(Option<Result<Message, String>>),
    /// The broker has taken the message, or cannot.
    Relayed(Result<(), String>),
}

/// What to do next for a publisher.
#[derive(Debug, PartialEq, Eq)]
pub enum PublisherAction {
    /// Wait for the publisher.
    Receive,
    /// Hand a message to the broker.
    Relay(Message),
    /// End with this result.
    Finish(Result<(), Error>),
}

/// What follows each event.
pub open spec fn publisher_step(event: PublisherEvent) -> PublisherAction {
    match event {
        PublisherEvent::Start => PublisherAction::Receive,
        PublisherEvent::Incoming(None) => PublisherAction::Finish(Ok(())),
        PublisherEvent::Incoming(Some(Err(text))) => {
            PublisherAction::Finish(Err(Error::Tunstenite(text)))
        },
        PublisherEvent::Incoming(Some(Ok(msg))) => PublisherAction::Relay(msg),
        PublisherEvent::Relayed(Ok(_)) => PublisherAction::Receive,
        PublisherEvent::Relayed(Err(text)) => PublisherAction::Finish(Err(Error::Mpsc(text))),
    }
}

/// Serves a publisher: every message it sends goes to the broker, until it is done or
/// something fails.
pub fn run_publisher(event: PublisherEvent) -> (action: PublisherAction)
    ensures
        action == publisher_step(event),
{
    match event {
        PublisherEvent::Start => PublisherAction::Receive,
        PublisherEvent::Incoming(None) => PublisherAction::Finish(Ok(())),
        PublisherEvent::Incoming(Some(Err(text))) => {
            PublisherAction::Finish(Err(Error::Tunstenite(text)))
        },
        PublisherEvent::Incoming(Some(Ok(msg))) => PublisherAction::Relay(msg),
        PublisherEvent::Relayed(Ok(_)) => PublisherAction::Receive,
        PublisherEvent::Relayed(Err(text)) => PublisherAction::Finish(Err(Error::Mpsc(text))),
    }
}

/// `event` can be the answer to `action`.
pub open spec fn publisher_answers(action: PublisherAction, event: PublisherEvent) -> bool {
    match action {
        PublisherAction::Receive => event is Incoming,
        PublisherAction::Relay(_) => event is Relayed,
        PublisherAction::Finish(_) => false,
    }
}

/// `events` is what can happen to one publisher, from the start.
pub open spec fn publisher_run(events: Seq<PublisherEvent>) -> bool {
    &&& events.len() > 0 ==> events[0] is Start
    &&& forall|i: int|
        0 <= i < events.len() - 1 ==> publisher_answers(
            publisher_step(#[trigger] events[i]),
            events[i + 1],
        )
}

/// The messages that came from the publisher.
pub open spec fn received(events: Seq<PublisherEvent>) -> Seq<Message>
    decreases events.len(),
{
    if events.len() == 0 {
        Seq::empty()
    } else {
        let before = received(events.drop_last());
        match events.last() {
            PublisherEvent::Incoming(Some(Ok(msg))) => before.push(msg),
            _ => before,
        }
    }
}

/// The messages that were handed to the broker.
pub open spec fn relayed(events: Seq<PublisherEvent>) -> Seq<Message>
    decreases events.len(),
{
    if events.len() == 0 {
        Seq::empty()
    } else {
        let before = relayed(events.drop_last());
        match publisher_step(events.last()) {
            PublisherAction::Relay(msg) => before.push(msg),
            _ => before,
        }
    }
}

/// The broker is handed exactly what the publisher sent, in order.
pub proof fn law_everything_received_is_relayed(events: Seq<PublisherEvent>)
    ensures
        relayed(events) == received(events),
    decreases events.len(),
{
    if events.len() > 0 {
        law_everything_received_is_relayed(events.drop_last());
    }
}

/// Reading and relaying take turns: the broker has taken a message before the next one is read,
/// and only the last event can end the connection.
pub proof fn law_a_message_is_taken_before_the_next_is_read(events: Seq<PublisherEvent>, i: int)
    requires
        publisher_run(events),
        0 < i < events.len(),
    ensures
        i % 2 == 1 ==> events[i] is Incoming,
        i % 2 == 0 ==> events[i] is Relayed,
        publisher_step(events[i]) is Finish ==> i == events.len() - 1,
        i % 2 == 1 && i < events.len() - 1 ==> (events[i] matches PublisherEvent::Incoming(
            Some(Ok(_)),
        )),
        i % 2 == 0 && i < events.len() - 1 ==> (events[i] matches PublisherEvent::Relayed(Ok(_))),
    decreases i,
{
    assert(publisher_answers(publisher_step(events[i - 1]), events[i - 1 + 1]));
    if i > 1 {
        law_a_message_is_taken_before_the_next_is_read(events, i - 1);
    }
    if i < events.len() - 1 {
        assert(publisher_answers(publisher_step(events[i]), events[i + 1]));
    }
}

/// What each event of a publisher leads to, and what alone leads to it.
pub proof fn law_a_publisher_is_served_to_its_end(
    event: PublisherEvent,
    msg: Message,
    text: String,
)
    ensures
        publisher_step(event) == PublisherAction::Relay(msg) <==> event == PublisherEvent::Incoming(
            Some(Ok(msg)),
        ),
        publisher_step(event) is Receive <==> event is Start || (event matches PublisherEvent::Relayed(
            Ok(_),
        )),
        (publisher_step(event) matches PublisherAction::Finish(Ok(_))) <==> event
            == PublisherEvent::Incoming(None),
        publisher_step(event) == PublisherAction::Finish(Err(Error::Tunstenite(text))) <==> event
            == PublisherEvent::Incoming(Some(Err(text))),
        publisher_step(event) == PublisherAction::Finish(Err(Error::Mpsc(text))) <==> event
            == PublisherEvent::Relayed(Err(text)),
{
}

} // verus!
