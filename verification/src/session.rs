//! The server's side of a client's connection.
use crate::addr::SocketAddr;
use crate::error::Error;
use crate::message::{Message, MessageView};
use vstd::prelude::*;

verus! {

/// How many messages a channel holds before its sender has to wait.
pub const CHANNEL_CAPACITY: usize = 10240;

/// After this many nanoseconds in which nothing happened the connection is looked after.
pub const WAIT_DUR: u64 = 5_000_000_000;

/// A client that has not answered a ping for more than this many nanoseconds is gone.
pub const MAX_IDLE: u64 = 15_000_000_000;

/// What happened to a client's connection. Points in time are in nanoseconds, counted from
/// any fixed moment.
#[derive(Debug, PartialEq, Eq)]
pub enum SessionEvent {
    /// The connection is open.
    Start,
    /// The broker has been told of the client, or cannot be.
    Registered(Result<(), String>),
    /// The broker has a message for the client, or (`None`) has dropped it.
    Published(Option<Message>),
    /// The client sent a message, or failed, or (`None`) is done.
    Incoming { item: Option<Result<Message, String>>, now: u64 },
    /// Nothing happened for [`WAIT_DUR`].
    Idle { now: u64 },
    /// The message has gone out to the client, or could not.
    Forwarded(Result<(), String>),
    /// The broker has been told that the client left, or cannot be.
    Deregistered(Result<(), String>),
}

/// What to do next for a client.
#[derive(Debug, PartialEq, Eq)]
pub enum SessionAction {
    /// Make a channel and tell the broker of the client at its sending end.
    Register { peer: SocketAddr, capacity: usize },
    /// Wait for the broker, the client or the time that is given, whichever is first.
    Select { wait: u64 },
    /// Send a message to the client.
    Forward(Message),
    /// Tell the broker that the client left.
    Deregister { peer: SocketAddr },
    /// End with this result.
    Finish(Result<(), Error>),
}

/// The model of [`SessionAction`].
pub enum SessionActionView {
    Register { peer: SocketAddr, capacity: usize },
    Select { wait: u64 },
    Forward(MessageView),
    Deregister { peer: SocketAddr },
    Finish(Result<(), Error>),
}

impl View for SessionAction {
    type V = SessionActionView;

    open spec fn view(&self) -> SessionActionView {
        match *self {
            SessionAction::Register { peer, capacity } => SessionActionView::Register {
                peer,
                capacity,
            },
            SessionAction::Select { wait } => SessionActionView::Select { wait },
            SessionAction::Forward(msg) => SessionActionView::Forward(msg@),
            SessionAction::Deregister { peer } => SessionActionView::Deregister { peer },
            SessionAction::Finish(result) => SessionActionView::Finish(result),
        }
    }
}

/// A client's connection.
#[derive(Clone, Copy, Debug, PartialEq, Eq)]
pub struct ClientSession {
    peer: SocketAddr,
    last_ping: Option<u64>,
    last_ping_reply: Option<u64>,
}

/// The model of [`ClientSession`].
pub struct ClientSessionView {
    pub peer: SocketAddr,
    /// When the client was last sent a ping.
    pub last_ping: Option<u64>,
    /// When the client last answered one.
    pub last_ping_reply: Option<u64>,
}

impl View for ClientSession {
    type V = ClientSessionView;

    closed spec fn view(&self) -> ClientSessionView {
        ClientSessionView {
            peer: self.peer,
            last_ping: self.last_ping,
            last_ping_reply: self.last_ping_reply,
        }
    }
}

/// What to do for a client when nothing has happened for a while.
#[derive(Clone, Copy, Debug, PartialEq, Eq, Structural)]
pub enum IdleCheck {
    /// Nothing: it has never been sent a ping.
    Wait,
    /// Send it a ping.
    Ping,
    /// Give it up.
    Expired,
}

/// A client is only looked after once it has been sent a ping. It is given up when it has never
/// answered or its last answer is more than [`MAX_IDLE`] ago, and sent another ping otherwise.
pub open spec fn idle_check_spec(
    last_ping: Option<u64>,
    last_ping_reply: Option<u64>,
    now: u64,
) -> IdleCheck {
    match (last_ping, last_ping_reply) {
        (None, _) => IdleCheck::Wait,
        (Some(_), None) => IdleCheck::Expired,
        (Some(_), Some(reply)) => if now - reply > MAX_IDLE {
            IdleCheck::Expired
        } else {
            IdleCheck::Ping
        },
    }
}

/// Decides what to do for a client when nothing has happened for a while.
pub fn idle_check(last_ping: Option<u64>, last_ping_reply: Option<u64>, now: u64) -> (check:
    IdleCheck)
    ensures
        check == idle_check_spec(last_ping, last_ping_reply, now),
{
    if last_ping.is_none() {
        return IdleCheck::Wait;
    }
    match last_ping_reply {
        None => IdleCheck::Expired,
        Some(reply) => {
            if now > reply && now - reply > MAX_IDLE {
                IdleCheck::Expired
            } else {
                IdleCheck::Ping
            }
        },
    }
}

/// A ping carries eight zero bytes.
pub open spec fn ping() -> MessageView {
    MessageView::Ping(seq![0u8, 0u8, 0u8, 0u8, 0u8, 0u8, 0u8, 0u8])
}

impl ClientSessionView {
    /// A connection that has just been opened.
    pub open spec fn init(peer: SocketAddr) -> Self {
        ClientSessionView { peer, last_ping: None, last_ping_reply: None }
    }

    /// The connection after `event`.
    pub open spec fn after(self, event: SessionEvent) -> Self {
        match event {
            SessionEvent::Incoming { item: Some(Ok(Message::Pong(_))), now } => ClientSessionView {
                last_ping_reply: Some(now),
                ..self
            },
            SessionEvent::Idle { now } => if idle_check_spec(
                self.last_ping,
                self.last_ping_reply,
                now,
            ) is Ping {
                ClientSessionView { last_ping: Some(now), ..self }
            } else {
                self
            },
            _ => self,
        }
    }

    /// What to do on `event`.
    pub open spec fn action(self, event: SessionEvent) -> SessionActionView {
        let select = SessionActionView::Select { wait: WAIT_DUR };
        match event {
            SessionEvent::Start => SessionActionView::Register {
                peer: self.peer,
                capacity: CHANNEL_CAPACITY,
            },
            SessionEvent::Registered(Ok(_)) => select,
            SessionEvent::Registered(Err(text)) => SessionActionView::Finish(Err(Error::Mpsc(text))),
            SessionEvent::Published(Some(msg)) => SessionActionView::Forward(msg@),
            SessionEvent::Published(None) => SessionActionView::Finish(Ok(())),
            SessionEvent::Incoming { item: Some(Ok(_)), now: _ } => select,
            SessionEvent::Incoming { item: Some(Err(_)), now: _ } => SessionActionView::Finish(
                Ok(()),
            ),
            SessionEvent::Incoming { item: None, now: _ } => SessionActionView::Deregister {
                peer: self.peer,
            },
            SessionEvent::Idle { now } => match idle_check_spec(
                self.last_ping,
                self.last_ping_reply,
                now,
            ) {
                IdleCheck::Wait => select,
                IdleCheck::Ping => SessionActionView::Forward(ping()),
                IdleCheck::Expired => SessionActionView::Finish(Ok(())),
            },
            SessionEvent::Forwarded(Ok(_)) => select,
            SessionEvent::Forwarded(Err(text)) => SessionActionView::Finish(
                Err(Error::Tunstenite(text)),
            ),
            SessionEvent::Deregistered(Ok(_)) => SessionActionView::Finish(Ok(())),
            SessionEvent::Deregistered(Err(text)) => SessionActionView::Finish(
                Err(Error::Mpsc(text)),
            ),
        }
    }
}

impl ClientSession {
    /// The connection of the client at `peer`, just opened.
    pub fn new(peer: SocketAddr) -> (session: Self)
        ensures
            session@ == ClientSessionView::init(peer),
    {
        ClientSession { peer, last_ping: None, last_ping_reply: None }
    }

    /// Takes the connection from one outside event to the next thing it needs done.
    pub fn run_client(&mut self, event: SessionEvent) -> (action: SessionAction)
        ensures
            final(self)@ == old(self)@.after(event),
            action@ == old(self)@.action(event),
    {
        match event {
            SessionEvent::Start => SessionAction::Register {
                peer: self.peer,
                capacity: CHANNEL_CAPACITY,
            },
            SessionEvent::Registered(Ok(_)) => SessionAction::Select { wait: WAIT_DUR },
            SessionEvent::Registered(Err(text)) => SessionAction::Finish(Err(Error::Mpsc(text))),
            SessionEvent::Published(Some(msg)) => SessionAction::Forward(msg),
            SessionEvent::Published(None) => SessionAction::Finish(Ok(())),
            SessionEvent::Incoming { item: Some(Ok(msg)), now } => {
                match msg {
                    Message::Pong(_) => {
                        self.last_ping_reply = Some(now);
                    },
                    _ => {},
                }
                SessionAction::Select { wait: WAIT_DUR }
            },
            SessionEvent::Incoming { item: Some(Err(_)), now: _ } => SessionAction::Finish(Ok(())),
            SessionEvent::Incoming { item: None, now: _ } => SessionAction::Deregister {
                peer: self.peer,
            },
            SessionEvent::Idle { now } => {
                match idle_check(self.last_ping, self.last_ping_reply, now) {
                    IdleCheck::Wait => SessionAction::Select { wait: WAIT_DUR },
                    IdleCheck::Ping => {
                        self.last_ping = Some(now);
                        let data: Vec<u8> = vec![0u8, 0u8, 0u8, 0u8, 0u8, 0u8, 0u8, 0u8];
                        proof {
                            assert(data@ =~= ping()->Ping_0);
                        }
                        SessionAction::Forward(Message::Ping(data))
                    },
                    IdleCheck::Expired => SessionAction::Finish(Ok(())),
                }
            },
            SessionEvent::Forwarded(Ok(_)) => SessionAction::Select { wait: WAIT_DUR },
            SessionEvent::Forwarded(Err(text)) => {
                SessionAction::Finish(Err(Error::Tunstenite(text)))
            },
            SessionEvent::Deregistered(Ok(_)) => SessionAction::Finish(Ok(())),
            SessionEvent::Deregistered(Err(text)) => SessionAction::Finish(Err(Error::Mpsc(text))),
        }
    }
}

/// The connection of the client at `peer` after `events`, from the start.
pub open spec fn session_after(peer: SocketAddr, events: Seq<SessionEvent>) -> ClientSessionView
    decreases events.len(),
{
    if events.len() == 0 {
        ClientSessionView::init(peer)
    } else {
        session_after(peer, events.drop_last()).after(events.last())
    }
}

/// The messages that the broker had for the client.
pub open spec fn published(events: Seq<SessionEvent>) -> Seq<MessageView>
    decreases events.len(),
{
    if events.len() == 0 {
        Seq::empty()
    } else {
        let before = published(events.drop_last());
        match events.last() {
            SessionEvent::Published(Some(msg)) => before.push(msg@),
            _ => before,
        }
    }
}

/// The messages that were to be sent to the client.
pub open spec fn forwarded(peer: SocketAddr, events: Seq<SessionEvent>) -> Seq<MessageView>
    decreases events.len(),
{
    if events.len() == 0 {
        Seq::empty()
    } else {
        let before = forwarded(peer, events.drop_last());
        match session_after(peer, events.drop_last()).action(events.last()) {
            SessionActionView::Forward(msg) => before.push(msg),
            _ => before,
        }
    }
}

/// No client is ever sent a ping: that takes an earlier ping, and there is no first one.
pub proof fn law_nobody_is_pinged(peer: SocketAddr, events: Seq<SessionEvent>)
    ensures
        session_after(peer, events).last_ping is None,
        session_after(peer, events).peer == peer,
    decreases events.len(),
{
    if events.len() > 0 {
        law_nobody_is_pinged(peer, events.drop_last());
    }
}

/// A client that says nothing is never given up: time passing only leads to more waiting.
pub proof fn law_silence_is_no_reason_to_end(peer: SocketAddr, events: Seq<SessionEvent>, now: u64)
    ensures
        session_after(peer, events).action(SessionEvent::Idle { now })
            == (SessionActionView::Select { wait: WAIT_DUR }),
        session_after(peer, events).after(SessionEvent::Idle { now }) == session_after(
            peer,
            events,
        ),
{
    law_nobody_is_pinged(peer, events);
}

/// A client is sent exactly what the broker had for it, in order.
pub proof fn law_everything_published_is_forwarded(peer: SocketAddr, events: Seq<SessionEvent>)
    ensures
        forwarded(peer, events) == published(events),
    decreases events.len(),
{
    if events.len() > 0 {
        law_everything_published_is_forwarded(peer, events.drop_last());
        law_nobody_is_pinged(peer, events.drop_last());
    }
}

/// The broker is told that a client left when the client has closed its connection, and on no
/// other occasion. It is told of the right client.
pub proof fn law_only_a_client_that_is_done_is_deregistered(
    peer: SocketAddr,
    events: Seq<SessionEvent>,
    event: SessionEvent,
)
    ensures
        session_after(peer, events).action(event) is Deregister <==> (event matches SessionEvent::Incoming {
            item: None,
            ..
        }),
        session_after(peer, events).action(event) matches SessionActionView::Deregister { peer: left }
            ==> left == peer,
{
    law_nobody_is_pinged(peer, events);
}

/// The client sent a message, and it could be read.
pub open spec fn is_client_message(event: SessionEvent) -> bool {
    event matches SessionEvent::Incoming { item: Some(Ok(_)), .. }
}

/// What happened, without the messages that the client sent.
pub open spec fn unheard(events: Seq<SessionEvent>) -> Seq<SessionEvent>
    decreases events.len(),
{
    if events.len() == 0 {
        Seq::empty()
    } else {
        let before = unheard(events.drop_last());
        if is_client_message(events.last()) {
            before
        } else {
            before.push(events.last())
        }
    }
}

/// Everything that was asked for, apart from waiting.
pub open spec fn deeds(peer: SocketAddr, events: Seq<SessionEvent>) -> Seq<SessionActionView>
    decreases events.len(),
{
    if events.len() == 0 {
        Seq::empty()
    } else {
        let before = deeds(peer, events.drop_last());
        match session_after(peer, events.drop_last()).action(events.last()) {
            SessionActionView::Select { .. } => before,
            action => before.push(action),
        }
    }
}

proof fn lemma_unheard(peer: SocketAddr, events: Seq<SessionEvent>)
    ensures
        deeds(peer, events) == deeds(peer, unheard(events)),
    decreases events.len(),
{
    if events.len() > 0 {
        let earlier = events.drop_last();
        lemma_unheard(peer, earlier);
        law_nobody_is_pinged(peer, earlier);
        law_nobody_is_pinged(peer, unheard(earlier));
        if !is_client_message(events.last()) {
            assert(unheard(events).drop_last() =~= unheard(earlier));
        }
    }
}

/// What a client says is ignored: connections that differ only in the messages that the client
/// sent have the same done for them, apart from waiting.
pub proof fn law_what_a_client_says_is_ignored(
    peer: SocketAddr,
    events: Seq<SessionEvent>,
    others: Seq<SessionEvent>,
)
    requires
        unheard(events) == unheard(others),
    ensures
        deeds(peer, events) == deeds(peer, others),
{
    lemma_unheard(peer, events);
    lemma_unheard(peer, others);
}

/// `event` can be the answer to `action`.
pub open spec fn session_answers(action: SessionActionView, event: SessionEvent) -> bool {
    match action {
        SessionActionView::Register { .. } => event is Registered,
        SessionActionView::Select { .. } => event is Published || event is Incoming || event is Idle,
        SessionActionView::Forward(_) => event is Forwarded,
        SessionActionView::Deregister { .. } => event is Deregistered,
        SessionActionView::Finish(_) => false,
    }
}

/// What is asked for on event number `i`.
pub open spec fn deed(peer: SocketAddr, events: Seq<SessionEvent>, i: int) -> SessionActionView {
    session_after(peer, events.take(i)).action(events[i])
}

/// `events` is what can happen to the connection of the client at `peer`, from the start.
pub open spec fn session_run(peer: SocketAddr, events: Seq<SessionEvent>) -> bool {
    &&& events.len() > 0 ==> events[0] is Start
    &&& forall|i: int|
        0 <= i < events.len() - 1 ==> session_answers(#[trigger] deed(peer, events, i), events[i
            + 1])
}

/// The broker is told of a client first, and once. It is told that the client left at the end
/// if at all, with only the end after it. Nothing follows the end.
pub proof fn law_a_client_joins_first_and_leaves_last(
    peer: SocketAddr,
    events: Seq<SessionEvent>,
    i: int,
)
    requires
        session_run(peer, events),
        0 <= i < events.len(),
    ensures
        events[i] is Start <==> i == 0,
        deed(peer, events, i) is Register <==> i == 0,
        i == 0 ==> deed(peer, events, i) == (SessionActionView::Register {
            peer,
            capacity: CHANNEL_CAPACITY,
        }),
        events[i] is Registered <==> i == 1,
        deed(peer, events, i) is Deregister ==> {
            &&& deed(peer, events, i) == (SessionActionView::Deregister { peer })
            &&& i >= events.len() - 2
            &&& i == events.len() - 2 ==> events[i + 1] is Deregistered && deed(
                peer,
                events,
                i + 1,
            ) is Finish
        },
        events[i] is Deregistered ==> i > 0 && deed(peer, events, i - 1) is Deregister,
        deed(peer, events, i) is Finish ==> i == events.len() - 1,
{
    law_nobody_is_pinged(peer, events.take(i));
    if i > 0 {
        law_nobody_is_pinged(peer, events.take(i - 1));
        assert(session_answers(deed(peer, events, i - 1), events[i - 1 + 1]));
        if i > 1 {
            law_nobody_is_pinged(peer, events.take(i - 2));
            assert(session_answers(deed(peer, events, i - 2), events[i - 2 + 1]));
        }
    }
    if i < events.len() - 1 {
        law_nobody_is_pinged(peer, events.take(i + 1));
        assert(session_answers(deed(peer, events, i), events[i + 1]));
        if i < events.len() - 2 {
            assert(session_answers(deed(peer, events, i + 1), events[i + 1 + 1]));
        }
    }
}

/// The broker is told only once that a client left.
pub proof fn law_a_client_leaves_once(
    peer: SocketAddr,
    events: Seq<SessionEvent>,
    i: int,
    j: int,
)
    requires
        session_run(peer, events),
        0 <= i < events.len(),
        0 <= j < events.len(),
        deed(peer, events, i) is Deregister,
        deed(peer, events, j) is Deregister,
    ensures
        i == j,
{
    law_a_client_joins_first_and_leaves_last(peer, events, i);
    law_a_client_joins_first_and_leaves_last(peer, events, j);
}

/// A client that was never sent a ping is left alone. One that was is given up exactly when it
/// never answered or its last answer is more than fifteen seconds ago, and is sent another ping
/// otherwise. Time only ever speaks against a client.
pub proof fn law_a_client_has_fifteen_seconds(
    last_ping: Option<u64>,
    last_ping_reply: Option<u64>,
    now: u64,
    later: u64,
)
    ensures
        idle_check_spec(last_ping, last_ping_reply, now) is Wait <==> last_ping is None,
        idle_check_spec(last_ping, last_ping_reply, now) is Expired <==> last_ping is Some && (
        last_ping_reply is None || last_ping_reply->0 + 15_000_000_000 < now),
        idle_check_spec(last_ping, last_ping_reply, now) is Ping <==> last_ping is Some
            && last_ping_reply is Some && now <= last_ping_reply->0 + 15_000_000_000,
        now <= later && idle_check_spec(last_ping, last_ping_reply, now) is Expired
            ==> idle_check_spec(last_ping, last_ping_reply, later) is Expired,
{
}

/// What is done for a client on each event, in whatever state its connection is.
pub proof fn law_what_is_done_for_a_client(state: ClientSessionView, event: SessionEvent)
    ensures
        event is Start ==> state.action(event) == (SessionActionView::Register {
            peer: state.peer,
            capacity: 10240,
        }),
        event matches SessionEvent::Published(Some(msg)) ==> state.action(event)
            == SessionActionView::Forward(msg@),
        event matches SessionEvent::Published(None) ==> (state.action(
            event,
        ) matches SessionActionView::Finish(Ok(_))),
        event matches SessionEvent::Incoming { item: Some(Ok(_)), .. } ==> state.action(event) == (
        SessionActionView::Select { wait: 5_000_000_000 }),
        event matches SessionEvent::Incoming { item: Some(Err(_)), .. } ==> (state.action(
            event,
        ) matches SessionActionView::Finish(Ok(_))),
        event matches SessionEvent::Incoming { item: None, .. } ==> state.action(event) == (
        SessionActionView::Deregister { peer: state.peer }),
        event matches SessionEvent::Registered(Ok(_)) ==> state.action(event) == (
        SessionActionView::Select { wait: 5_000_000_000 }),
        event matches SessionEvent::Registered(Err(text)) ==> state.action(event)
            == SessionActionView::Finish(Err(Error::Mpsc(text))),
        event matches SessionEvent::Forwarded(Ok(_)) ==> state.action(event) == (
        SessionActionView::Select { wait: 5_000_000_000 }),
        event matches SessionEvent::Forwarded(Err(text)) ==> state.action(event)
            == SessionActionView::Finish(Err(Error::Tunstenite(text))),
        event matches SessionEvent::Deregistered(Ok(_)) ==> (state.action(
            event,
        ) matches SessionActionView::Finish(Ok(_))),
        event matches SessionEvent::Deregistered(Err(text)) ==> state.action(event)
            == SessionActionView::Finish(Err(Error::Mpsc(text))),
        event is Idle && state.last_ping is None ==> state.action(event) == (
        SessionActionView::Select { wait: 5_000_000_000 }),
{
}

/// What is done for a client that has been sent a ping and is silent: another ping with eight
/// zero bytes if it answered within fifteen seconds, and the end if not.
pub proof fn law_what_is_done_for_a_silent_client(state: ClientSessionView, now: u64)
    requires
        state.last_ping is Some,
    ensures
        ({
            let action = state.action(SessionEvent::Idle { now });
            if state.last_ping_reply is Some && now <= state.last_ping_reply->0 + 15_000_000_000 {
                &&& action matches SessionActionView::Forward(MessageView::Ping(data))
                &&& data.len() == 8
                &&& forall|i: int| 0 <= i < 8 ==> #[trigger] data[i] == 0
            } else {
                action matches SessionActionView::Finish(Ok(_))
            }
        }),
{
}

/// A connection remembers when the client last answered a ping and when it was last sent one,
/// and never changes its client.
pub proof fn law_what_a_connection_remembers(
    state: ClientSessionView,
    event: SessionEvent,
    peer: SocketAddr,
)
    ensures
        state.after(event).peer == state.peer,
        state.after(event).last_ping_reply == match event {
            SessionEvent::Incoming { item: Some(Ok(Message::Pong(_))), now } => Some(now),
            _ => state.last_ping_reply,
        },
        event matches SessionEvent::Idle { now } ==> state.after(event).last_ping == (if (
        state.action(event) matches SessionActionView::Forward(_)) {
            Some(now)
        } else {
            state.last_ping
        }),
        !(event is Idle) ==> state.after(event).last_ping == state.last_ping,
        ClientSessionView::init(peer).peer == peer,
        ClientSessionView::init(peer).last_ping is None,
        ClientSessionView::init(peer).last_ping_reply is None,
{
}

/// The model of what is to be done holds what the value does.
pub proof fn law_the_model_holds_what_is_to_be_done(action: SessionAction)
    ensures
        match action {
            SessionAction::Register { peer, capacity } => action@ == (SessionActionView::Register {
                peer,
                capacity,
            }),
            SessionAction::Select { wait } => action@ == (SessionActionView::Select { wait }),
            SessionAction::Forward(msg) => action@ == SessionActionView::Forward(msg@),
            SessionAction::Deregister { peer } => action@ == (SessionActionView::Deregister {
                peer,
            }),
            SessionAction::Finish(result) => action@ == SessionActionView::Finish(result),
        },
{
}

} // verus!
