//! The server: where it listens, what it calls itself, and who it takes a visitor for.
use crate::addr::{SocketAddr, SocketAddrV4};
use crate::error::Error;
use crate::ident::{
    hyphenated, id_text, is_random_id, law_text_identifies, lemma_hyphenated_characters, random_id,
};
use crate::listen::{listen_sockaddr, ListenError};
use crate::readback::law_authority_reads_back;
use crate::session::CHANNEL_CAPACITY;
use crate::text::decimal;
use crate::uri::{authority, authority_text, build_uri, lemma_authority};
use std::rc::Rc;
use vstd::prelude::*;

verus! {

/// A server. Publishers and clients find it under two paths that nobody can guess. `B` is the
/// way to the broker.
#[derive(Debug, PartialEq, Eq)]
pub struct Server<B> {
    publish_uuid: u128,
    client_uuid: u128,
    listen_addr: SocketAddr,
    broker: Option<B>,
}

/// The model of [`Server`].
pub struct ServerView<B> {
    pub publish_uuid: u128,
    pub client_uuid: u128,
    pub listen_addr: SocketAddr,
    /// The way to the broker, once that has been started.
    pub broker: Option<B>,
}

impl<B> View for Server<B> {
    type V = ServerView<B>;

    closed spec fn view(&self) -> ServerView<B> {
        ServerView {
            publish_uuid: self.publish_uuid,
            client_uuid: self.client_uuid,
            listen_addr: self.listen_addr,
            broker: self.broker,
        }
    }
}

/// What a visitor may do.
#[derive(Clone, Copy, Debug, PartialEq, Eq, Structural)]
pub enum Role {
    /// Send the recording.
    Publisher,
    /// Watch it.
    Client,
}

/// What happened while the server runs.
#[derive(Debug, PartialEq, Eq)]
pub enum RunEvent<B> {
    /// The server is to run.
    Start,
    /// The address is taken, or cannot be.
    Bound(Result<(), String>),
    /// The broker is running, and this is the way to it.
    BrokerStarted(B),
    /// Somebody connected, or nobody can any more.
    Accepted(Result<(), String>),
    /// The connection is being looked after.
    Spawned,
}

/// What the server needs done next.
#[derive(Debug, PartialEq, Eq)]
pub enum RunAction<B> {
    /// Listen at this address.
    Bind(SocketAddr),
    /// Make a channel to the broker and start it.
    StartBroker { capacity: usize },
    /// Wait for a connection.
    Accept,
    /// Look after the connection on the side, with this copy of the server.
    Spawn(Server<B>),
    /// End with this result.
    Finish(Result<(), Error>),
}

/// The model of [`RunAction`].
pub enum RunActionView<B> {
    Bind(SocketAddr),
    StartBroker { capacity: usize },
    Accept,
    Spawn(ServerView<B>),
    Finish(Result<(), Error>),
}

impl<B> View for RunAction<B> {
    type V = RunActionView<B>;

    open spec fn view(&self) -> RunActionView<B> {
        match *self {
            RunAction::Bind(addr) => RunActionView::Bind(addr),
            RunAction::StartBroker { capacity } => RunActionView::StartBroker { capacity },
            RunAction::Accept => RunActionView::Accept,
            RunAction::Spawn(server) => RunActionView::Spawn(server@),
            RunAction::Finish(result) => RunActionView::Finish(result),
        }
    }
}

/// What happened to a new connection.
#[derive(Debug, PartialEq, Eq)]
pub enum AcceptEvent {
    /// It is open, and comes from this address, or that cannot be said.
    Opened(Result<SocketAddr, String>),
    /// The connection from `peer` has become a websocket, and asks for this path, or it has not.
    Negotiated { peer: SocketAddr, path: Result<Option<String>, String> },
}

/// What to do with a new connection next.
#[derive(Debug, PartialEq, Eq)]
pub enum AcceptAction<B> {
    /// Make the connection from `peer` a websocket.
    Negotiate { peer: SocketAddr },
    /// Treat the connection from `peer` as its role deserves. `broker` is the way to the broker.
    Serve { role: Role, peer: SocketAddr, broker: Option<B> },
    /// End with this result. The connection is dropped.
    Finish(Result<(), Error>),
}

/// The path that belongs to an identifier.
pub open spec fn path(id: u128) -> Seq<char> {
    seq!['/'] + hyphenated(id)
}

/// `copy` leads where `broker` does.
pub open spec fn same_broker<B: Clone>(broker: Option<B>, copy: Option<B>) -> bool {
    match (broker, copy) {
        (None, None) => true,
        (Some(broker), Some(copy)) => cloned(broker, copy),
        _ => false,
    }
}

impl<B> ServerView<B> {
    /// The URI that belongs to an identifier.
    pub open spec fn uri(self, id: u128) -> Seq<char>
        recommends
            self.listen_addr is V4,
    {
        "ws"@ + "://"@ + authority(self.listen_addr->V4_0) + path(id)
    }

    /// Who asks for a path. If both identifiers were the same, it would be a publisher.
    pub open spec fn role(self, asked: Option<Seq<char>>) -> Option<Role> {
        match asked {
            None => None,
            Some(asked) => if asked == path(self.publish_uuid) {
                Some(Role::Publisher)
            } else if asked == path(self.client_uuid) {
                Some(Role::Client)
            } else {
                None
            },
        }
    }
}

impl<B: Clone> ServerView<B> {
    /// `copy` is found under the same paths at the same address, and leads to the same broker.
    pub open spec fn copied(self, copy: Self) -> bool {
        &&& copy.publish_uuid == self.publish_uuid
        &&& copy.client_uuid == self.client_uuid
        &&& copy.listen_addr == self.listen_addr
        &&& same_broker(self.broker, copy.broker)
    }

    /// What the server needs done on `event`.
    pub open spec fn run(self, event: RunEvent<B>, post: Self, action: RunActionView<B>) -> bool {
        match event {
            RunEvent::Start => {
                &&& post == self
                &&& action == RunActionView::<B>::Bind(self.listen_addr)
            },
            RunEvent::Bound(Err(text)) => {
                &&& post == self
                &&& action == RunActionView::<B>::Finish(Err(Error::Io(text)))
            },
            RunEvent::Bound(Ok(_)) => {
                &&& post == self
                &&& action == RunActionView::<B>::StartBroker { capacity: CHANNEL_CAPACITY }
            },
            RunEvent::BrokerStarted(broker) => {
                &&& post == (ServerView { broker: Some(broker), ..self })
                &&& action is Accept
            },
            RunEvent::Accepted(Ok(_)) => {
                &&& post == self
                &&& action matches RunActionView::Spawn(copy) && self.copied(copy)
            },
            RunEvent::Accepted(Err(_)) => {
                &&& post == self
                &&& action == RunActionView::<B>::Finish(Ok(()))
            },
            RunEvent::Spawned => {
                &&& post == self
                &&& action is Accept
            },
        }
    }

    /// What to do with a new connection on `event`.
    pub open spec fn accept_connection(self, event: AcceptEvent, action: AcceptAction<B>) -> bool {
        match event {
            AcceptEvent::Opened(Err(text)) => action == AcceptAction::<B>::Finish(
                Err(Error::Io(text)),
            ),
            AcceptEvent::Opened(Ok(peer)) => action == AcceptAction::<B>::Negotiate { peer },
            AcceptEvent::Negotiated { peer: _, path: Err(text) } => action
                == AcceptAction::<B>::Finish(Err(Error::NewConnection(text))),
            AcceptEvent::Negotiated { peer, path: Ok(asked) } => match self.role(
                match asked {
                    Some(asked) => Some(asked@),
                    None => None,
                },
            ) {
                Some(role) => {
                    action matches AcceptAction::Serve { role: given, peer: from, broker }
                        && given == role && from == peer && same_broker(self.broker, broker)
                },
                None => action == AcceptAction::<B>::Finish(Ok(())),
            },
        }
    }
}

fn copy_broker<B: Clone>(broker: &Option<B>) -> (copy: Option<B>)
    ensures
        same_broker(*broker, copy),
{
    match broker {
        Some(broker) => Some(broker.clone()),
        None => None,
    }
}

impl<B: Clone> Clone for Server<B> {
    fn clone(&self) -> (copy: Self)
        ensures
            self@.copied(copy@),
    {
        Server {
            publish_uuid: self.publish_uuid,
            client_uuid: self.client_uuid,
            listen_addr: self.listen_addr,
            broker: copy_broker(&self.broker),
        }
    }
}

impl<B> Server<B> {
    /// A server for `addr` with two fresh random identifiers and no broker yet.
    pub fn new(addr: &SocketAddr) -> (server: Rc<Self>)
        ensures
            server@.listen_addr == *addr,
            server@.broker is None,
            is_random_id(server@.publish_uuid),
            is_random_id(server@.client_uuid),
    {
        Rc::new(Server::with_ids(addr, random_id(), random_id()))
    }

    /// A server for `addr` with these identifiers and no broker yet.
    pub fn with_ids(addr: &SocketAddr, publish_uuid: u128, client_uuid: u128) -> (server: Self)
        ensures
            server@ == (ServerView::<B> {
                publish_uuid,
                client_uuid,
                listen_addr: *addr,
                broker: None,
            }),
    {
        Server { publish_uuid, client_uuid, listen_addr: *addr, broker: None }
    }

    /// Whether the server has a URI: an IPv6 address cannot stand in one without brackets.
    pub fn has_uri(&self) -> (yes: bool)
        ensures
            yes == (self@.listen_addr is V4),
    {
        match self.listen_addr {
            SocketAddr::V4(_) => true,
            SocketAddr::V6(_) => false,
        }
    }

    fn uuid_to_uri(&self, guid: u128) -> (uri: String)
        requires
            self@.listen_addr is V4,
        ensures
            uri@ == self@.uri(guid),
    {
        let addr = match self.listen_addr {
            SocketAddr::V4(addr) => addr,
            SocketAddr::V6(_) => vstd::pervasive::unreached(),
        };
        let host = authority_text(addr);
        let text = String::from_str("/").concat(id_text(guid).as_str());
        proof {
            reveal_strlit("ws");
            reveal_strlit("/");
            lemma_authority(addr);
            lemma_hyphenated_characters(guid);
            assert(text@ =~= path(guid));
        }
        build_uri("ws", host.as_str(), text.as_str())
    }

    /// Where clients connect.
    pub fn client_uri(&self) -> (uri: String)
        requires
            self@.listen_addr is V4,
        ensures
            uri@ == self@.uri(self@.client_uuid),
    {
        self.uuid_to_uri(self.client_uuid)
    }

    /// Where publishers connect.
    pub fn publish_uri(&self) -> (uri: String)
        requires
            self@.listen_addr is V4,
        ensures
            uri@ == self@.uri(self@.publish_uuid),
    {
        self.uuid_to_uri(self.publish_uuid)
    }

    /// What the server says of itself when it starts: where to publish and where to watch.
    pub fn announcement(&self) -> (lines: (String, String))
        requires
            self@.listen_addr is V4,
        ensures
            lines.0@ == "Publishing path: "@ + self@.uri(self@.publish_uuid),
            lines.1@ == "    Client path: "@ + self@.uri(self@.client_uuid),
    {
        let publish_uri = self.publish_uri();
        let client_uri = self.client_uri();
        (
            String::from_str("Publishing path: ").concat(publish_uri.as_str()),
            String::from_str("    Client path: ").concat(client_uri.as_str()),
        )
    }

    /// Who asks for the path, if it is anybody's.
    pub fn role(&self, asked: &str) -> (role: Option<Role>)
        ensures
            role == self@.role(Some(asked@)),
    {
        let len = asked.unicode_len();
        if len == 0 || asked.get_char(0) != '/' {
            return None;
        }
        let maybe_guid = asked.substring_char(1, len).to_owned();
        proof {
            assert(asked@ =~= seq!['/'] + maybe_guid@);
            assert forall|id: u128| asked@ == #[trigger] path(id) <==> maybe_guid@ == hyphenated(
                id,
            ) by {
                assert(path(id).skip(1) =~= hyphenated(id));
                assert(asked@.skip(1) =~= maybe_guid@);
            }
        }
        if maybe_guid == id_text(self.publish_uuid) {
            Some(Role::Publisher)
        } else if maybe_guid == id_text(self.client_uuid) {
            Some(Role::Client)
        } else {
            None
        }
    }
}

impl<B: Clone> Server<B> {
    /// Takes the running server from one outside event to the next thing it needs done.
    pub fn run(&mut self, event: RunEvent<B>) -> (action: RunAction<B>)
        ensures
            old(self)@.run(event, final(self)@, action@),
    {
        match event {
            RunEvent::Start => RunAction::Bind(self.listen_addr),
            RunEvent::Bound(Err(text)) => RunAction::Finish(Err(Error::Io(text))),
            RunEvent::Bound(Ok(_)) => RunAction::StartBroker { capacity: CHANNEL_CAPACITY },
            RunEvent::BrokerStarted(broker) => {
                self.broker = Some(broker);
                RunAction::Accept
            },
            RunEvent::Accepted(Ok(_)) => RunAction::Spawn(self.clone()),
            RunEvent::Accepted(Err(_)) => RunAction::Finish(Ok(())),
            RunEvent::Spawned => RunAction::Accept,
        }
    }

    /// Takes a new connection from one outside event to the next thing it needs done.
    pub fn accept_connection(&self, event: AcceptEvent) -> (action: AcceptAction<B>)
        ensures
            self@.accept_connection(event, action),
    {
        match event {
            AcceptEvent::Opened(Err(text)) => AcceptAction::Finish(Err(Error::Io(text))),
            AcceptEvent::Opened(Ok(peer)) => AcceptAction::Negotiate { peer },
            AcceptEvent::Negotiated { peer: _, path: Err(text) } => {
                AcceptAction::Finish(Err(Error::NewConnection(text)))
            },
            AcceptEvent::Negotiated { peer: _, path: Ok(None) } => AcceptAction::Finish(Ok(())),
            AcceptEvent::Negotiated { peer, path: Ok(Some(asked)) } => match self.role(
                asked.as_str(),
            ) {
                Some(role) => AcceptAction::Serve {
                    role,
                    peer,
                    broker: copy_broker(&self.broker),
                },
                None => AcceptAction::Finish(Ok(())),
            },
        }
    }
}

/// What follows from the first slash on.
pub open spec fn from_slash(s: Seq<char>) -> Seq<char>
    decreases s.len(),
{
    if s.len() == 0 || s[0] == '/' {
        s
    } else {
        from_slash(s.skip(1))
    }
}

/// The path of a websocket URI: what follows the scheme, its two slashes and the authority.
pub open spec fn path_of(uri: Seq<char>) -> Seq<char> {
    from_slash(uri.skip("ws://"@.len() as int))
}

proof fn lemma_from_slash(front: Seq<char>, path: Seq<char>)
    requires
        forall|i: int| 0 <= i < front.len() ==> #[trigger] front[i] != '/',
        path.len() > 0,
        path[0] == '/',
    ensures
        from_slash(front + path) == path,
    decreases front.len(),
{
    if front.len() == 0 {
        assert(front + path =~= path);
    } else {
        assert((front + path)[0] == front[0]);
        assert((front + path).skip(1) =~= front.skip(1) + path);
        assert forall|i: int| 0 <= i < front.skip(1).len() implies #[trigger] front.skip(1)[i]
            != '/' by {
            assert(front.skip(1)[i] == front[i + 1]);
        }
        lemma_from_slash(front.skip(1), path);
    }
}

/// The path of the URI that belongs to an identifier is the path that belongs to it.
pub proof fn law_uri_has_the_path<B>(server: ServerView<B>, id: u128)
    requires
        server.listen_addr is V4,
    ensures
        path_of(server.uri(id)) == path(id),
{
    reveal_strlit("ws");
    reveal_strlit("://");
    reveal_strlit("ws://");
    let host = authority(server.listen_addr->V4_0);
    lemma_authority(server.listen_addr->V4_0);
    assert(server.uri(id).skip(5) =~= host + path(id));
    lemma_from_slash(host, path(id));
}

/// Whoever connects to the publishers' URI may publish. Whoever connects to the clients' URI
/// may watch, and no more, unless the two identifiers are the same.
pub proof fn law_uris_lead_to_their_roles<B>(server: ServerView<B>)
    requires
        server.listen_addr is V4,
    ensures
        server.role(Some(path_of(server.uri(server.publish_uuid)))) == Some(Role::Publisher),
        server.publish_uuid != server.client_uuid ==> server.role(
            Some(path_of(server.uri(server.client_uuid))),
        ) == Some(Role::Client),
{
    law_uri_has_the_path(server, server.publish_uuid);
    law_uri_has_the_path(server, server.client_uuid);
    if server.publish_uuid != server.client_uuid {
        let publish = path(server.publish_uuid);
        let client = path(server.client_uuid);
        assert(publish.skip(1) =~= hyphenated(server.publish_uuid));
        assert(client.skip(1) =~= hyphenated(server.client_uuid));
        if publish == client {
            law_text_identifies(server.publish_uuid, server.client_uuid);
        }
    }
}

/// Nobody gets a role without the path of one of the two identifiers.
pub proof fn law_nobody_else_gets_a_role<B>(server: ServerView<B>, asked: Option<Seq<char>>)
    ensures
        server.role(asked) is Some ==> asked == Some(path(server.publish_uuid)) || asked == Some(
            path(server.client_uuid),
        ),
{
}

/// `event` can be the answer to `action`.
pub open spec fn run_answers<B>(action: RunActionView<B>, event: RunEvent<B>) -> bool {
    match action {
        RunActionView::Bind(_) => event is Bound,
        RunActionView::StartBroker { .. } => event is BrokerStarted,
        RunActionView::Accept => event is Accepted,
        RunActionView::Spawn(_) => event is Spawned,
        RunActionView::Finish(_) => false,
    }
}

/// One turn of the server: what happened, what the server asked for, and how it was left.
pub struct RunTurn<B> {
    pub event: RunEvent<B>,
    pub action: RunActionView<B>,
    pub post: ServerView<B>,
}

/// `turns` is what a server can go through that was `start` before it ran.
pub open spec fn server_run<B: Clone>(start: ServerView<B>, turns: Seq<RunTurn<B>>) -> bool
    decreases turns.len(),
{
    turns.len() > 0 ==> {
        let earlier = turns.drop_last();
        let turn = turns.last();
        &&& server_run(start, earlier)
        &&& if earlier.len() == 0 {
            &&& turn.event is Start
            &&& start.run(turn.event, turn.post, turn.action)
        } else {
            &&& run_answers(earlier.last().action, turn.event)
            &&& earlier.last().post.run(turn.event, turn.post, turn.action)
        }
    }
}

/// What the server was told when its broker had been started.
spec fn started<B>(turns: Seq<RunTurn<B>>) -> Option<B> {
    match turns[2].event {
        RunEvent::BrokerStarted(broker) if turns.len() > 2 => Some(broker),
        _ => None,
    }
}

/// The events come in a fixed order, and the server stays what it was but for its broker.
proof fn lemma_run_order<B: Clone>(start: ServerView<B>, turns: Seq<RunTurn<B>>)
    requires
        server_run(start, turns),
        turns.len() > 0,
    ensures
        ({
            let last = turns.last();
            &&& if turns.len() == 1 {
                last.event is Start && last.action is Bind
            } else if turns.len() == 2 {
                last.event is Bound && (last.action is StartBroker || last.action is Finish)
            } else if turns.len() == 3 {
                last.event is BrokerStarted && last.action is Accept
            } else if turns.len() % 2 == 0 {
                last.event is Accepted && (last.action is Spawn || last.action is Finish)
            } else {
                last.event is Spawned && last.action is Accept
            }
            &&& last.post == (ServerView {
                broker: if turns.len() > 2 {
                    started(turns)
                } else {
                    start.broker
                },
                ..start
            })
            &&& turns.len() > 2 ==> turns[1].action is StartBroker && turns[2].event is BrokerStarted
        }),
    decreases turns.len(),
{
    if turns.len() > 1 {
        let earlier = turns.drop_last();
        lemma_run_order(start, earlier);
        assert(run_answers(earlier.last().action, turns.last().event));
        if turns.len() == 3 {
            assert(turns[1] == earlier.last());
        } else if turns.len() > 3 {
            assert(turns[1] == earlier[1]);
            assert(turns[2] == earlier[2]);
            assert(started(turns) == started(earlier));
        }
    }
}

proof fn lemma_run_prefix<B: Clone>(start: ServerView<B>, turns: Seq<RunTurn<B>>, n: int)
    requires
        server_run(start, turns),
        0 <= n <= turns.len(),
    ensures
        server_run(start, turns.take(n)),
    decreases turns.len(),
{
    if n < turns.len() {
        lemma_run_prefix(start, turns.drop_last(), n);
        assert(turns.drop_last().take(n) =~= turns.take(n));
    } else {
        assert(turns.take(n) =~= turns);
    }
}

/// A server starts one broker, before it waits for its first connection. Every connection is
/// looked after by a copy of the server that is found under the same paths at the same address
/// and leads to that one broker; and that happens before the next connection is waited for.
/// Nothing follows the end.
pub proof fn law_one_broker_serves_everybody<B: Clone>(
    start: ServerView<B>,
    turns: Seq<RunTurn<B>>,
    i: int,
)
    requires
        server_run(start, turns),
        0 <= i < turns.len(),
    ensures
        turns[i].action is Bind <==> i == 0,
        turns[i].action is StartBroker ==> i == 1,
        turns[i].event is BrokerStarted <==> i == 2,
        i >= 2 ==> turns[1].action is StartBroker,
        i >= 2 ==> turns[i].post == (ServerView {
            broker: Some(turns[2].event->BrokerStarted_0),
            ..start
        }),
        turns[i].action is Accept <==> i >= 2 && i % 2 == 0,
        turns[i].action is Spawn ==> i >= 3 && i % 2 == 1,
        turns[i].action matches RunActionView::Spawn(copy) ==> {
            &&& copy.publish_uuid == start.publish_uuid
            &&& copy.client_uuid == start.client_uuid
            &&& copy.listen_addr == start.listen_addr
            &&& turns[2].event matches RunEvent::BrokerStarted(broker)
            &&& copy.broker matches Some(way)
            &&& cloned(broker, way)
        },
        turns[i].action is Finish ==> i == turns.len() - 1,
{
    let now = turns.take(i + 1);
    lemma_run_prefix(start, turns, i + 1);
    lemma_run_order(start, now);
    assert(now.last() == turns[i]);
    assert(i >= 2 ==> now[1] == turns[1] && now[2] == turns[2]);
    if i > 0 {
        lemma_run_prefix(start, turns, i);
        lemma_run_order(start, turns.take(i));
        assert(now.drop_last() =~= turns.take(i));
        assert(i > 2 ==> turns.take(i)[2] == turns[2]);
    }
    if i < turns.len() - 1 {
        let next = turns.take(i + 2);
        lemma_run_prefix(start, turns, i + 2);
        assert(next.drop_last() =~= now);
        assert(next.last() == turns[i + 1]);
    }
}

/// `event` can be the answer to `action`.
pub open spec fn accept_answers<B>(action: AcceptAction<B>, event: AcceptEvent) -> bool {
    match action {
        AcceptAction::Negotiate { peer } => event matches AcceptEvent::Negotiated {
            peer: from,
            ..
        } && from == peer,
        _ => false,
    }
}

/// A visitor is served under the address that it came from, in the role that it asked for, and
/// is led to the server's broker.
pub proof fn law_visitors_are_served_under_their_address<B: Clone>(
    server: ServerView<B>,
    opened: Result<SocketAddr, String>,
    first: AcceptAction<B>,
    negotiated: AcceptEvent,
    second: AcceptAction<B>,
)
    requires
        server.accept_connection(AcceptEvent::Opened(opened), first),
        accept_answers(first, negotiated),
        server.accept_connection(negotiated, second),
    ensures
        second matches AcceptAction::Serve { role, peer, broker } ==> {
            &&& opened == Ok::<_, String>(peer)
            &&& negotiated matches AcceptEvent::Negotiated { path: Ok(Some(asked)), .. }
            &&& server.role(Some(asked@)) == Some(role)
            &&& same_broker(server.broker, broker)
        },
{
}

/// The server ends with an error exactly when it could not listen.
pub proof fn law_only_listening_can_fail<B: Clone>(
    server: ServerView<B>,
    event: RunEvent<B>,
    post: ServerView<B>,
    action: RunActionView<B>,
    text: String,
)
    requires
        server.run(event, post, action),
    ensures
        action == RunActionView::<B>::Finish(Err(Error::Io(text))) <==> event == RunEvent::<
            B,
        >::Bound(Err(text)),
        action matches RunActionView::Finish(Err(error)) ==> error is Io,
{
}

/// What stands before the first slash.
pub open spec fn to_slash(s: Seq<char>) -> Seq<char>
    decreases s.len(),
{
    if s.len() == 0 || s[0] == '/' {
        Seq::empty()
    } else {
        seq![s[0]] + to_slash(s.skip(1))
    }
}

/// The authority of a websocket URI: what stands between the scheme with its two slashes and the
/// path.
pub open spec fn authority_of(uri: Seq<char>) -> Seq<char> {
    to_slash(uri.skip("ws://"@.len() as int))
}

proof fn lemma_to_slash(front: Seq<char>, rest: Seq<char>)
    requires
        forall|i: int| 0 <= i < front.len() ==> #[trigger] front[i] != '/',
        rest.len() > 0,
        rest[0] == '/',
    ensures
        to_slash(front + rest) == front,
    decreases front.len(),
{
    if front.len() == 0 {
        assert(front + rest =~= rest);
        assert(front =~= Seq::<char>::empty());
    } else {
        assert((front + rest)[0] == front[0]);
        assert((front + rest).skip(1) =~= front.skip(1) + rest);
        assert forall|i: int| 0 <= i < front.skip(1).len() implies #[trigger] front.skip(1)[i]
            != '/' by {
            assert(front.skip(1)[i] == front[i + 1]);
        }
        lemma_to_slash(front.skip(1), rest);
        assert(seq![front[0]] + front.skip(1) =~= front);
    }
}

/// A URI leads to where the server listens: its authority, read as an address with a port, is
/// the server's address. It starts with the websocket scheme, and its path spells the identifier.
pub proof fn law_a_uri_leads_to_the_server<B>(server: ServerView<B>, id: u128)
    requires
        server.listen_addr is V4,
    ensures
        listen_sockaddr(Some(authority_of(server.uri(id)))) == Ok::<_, ListenError>(
            server.listen_addr,
        ),
        server.uri(id).take(5) == seq!['w', 's', ':', '/', '/'],
        server.uri(id) == seq!['w', 's', ':', '/', '/'] + authority_of(server.uri(id)) + seq!['/']
            + hyphenated(id),
{
    let addr = server.listen_addr->V4_0;
    reveal_strlit("ws");
    reveal_strlit("://");
    reveal_strlit("ws://");
    lemma_authority(addr);
    assert(server.uri(id).skip(5) =~= authority(addr) + path(id));
    lemma_to_slash(authority(addr), path(id));
    law_authority_reads_back(addr);
    assert(server.uri(id).take(5) =~= seq!['w', 's', ':', '/', '/']);
    assert(server.uri(id) =~= seq!['w', 's', ':', '/', '/'] + authority(addr) + seq!['/']
        + hyphenated(id));
}

/// A URI spells out the address that the server listens at, number by number, and the port.
pub proof fn law_a_uri_spells_the_address<B>(server: ServerView<B>, id: u128, addr: SocketAddrV4)
    requires
        server.listen_addr == SocketAddr::V4(addr),
    ensures
        server.uri(id) == seq!['w', 's', ':', '/', '/'] + decimal(addr.ip.a as nat) + seq!['.']
            + decimal(addr.ip.b as nat) + seq!['.'] + decimal(addr.ip.c as nat) + seq!['.']
            + decimal(addr.ip.d as nat) + seq![':'] + decimal(addr.port as nat) + seq!['/']
            + hyphenated(id),
{
    reveal_strlit("ws");
    reveal_strlit("://");
    reveal_strlit(".");
    reveal_strlit(":");
}

/// Who asks for a path is told by comparing what follows its first slash with the text of the
/// two identifiers, and by nothing else.
pub proof fn law_the_path_tells_the_role<B>(server: ServerView<B>, asked: Seq<char>)
    ensures
        server.role(Some(asked)) == Some(Role::Publisher) <==> asked == seq!['/'] + hyphenated(
            server.publish_uuid,
        ),
        server.role(Some(asked)) == Some(Role::Client) <==> asked == seq!['/'] + hyphenated(
            server.client_uuid,
        ) && asked != seq!['/'] + hyphenated(server.publish_uuid),
        server.role(None) is None,
{
}

/// Whoever has opened a websocket and asks for one of the two paths is served, in the role that
/// belongs to the path, under the address it came from and with the way to the server's broker.
/// Nobody else is. That is so wherever the server listens and wherever the visitor comes from.
pub proof fn law_whoever_asks_for_a_path_is_served<B: Clone>(
    server: ServerView<B>,
    peer: SocketAddr,
    asked: String,
    action: AcceptAction<B>,
)
    requires
        server.accept_connection(
            AcceptEvent::Negotiated { peer, path: Ok(Some(asked)) },
            action,
        ),
    ensures
        asked@ == seq!['/'] + hyphenated(server.publish_uuid) ==> (action matches AcceptAction::Serve {
            role,
            peer: from,
            broker,
        } && role is Publisher && from == peer && (broker is Some <==> server.broker is Some) && (
        broker is Some ==> cloned(server.broker->0, broker->0))),
        asked@ == seq!['/'] + hyphenated(server.client_uuid) && server.publish_uuid
            != server.client_uuid ==> (action matches AcceptAction::Serve {
            role,
            peer: from,
            broker,
        } && role is Client && from == peer && (broker is Some <==> server.broker is Some) && (
        broker is Some ==> cloned(server.broker->0, broker->0))),
        asked@ != seq!['/'] + hyphenated(server.publish_uuid) && asked@ != seq!['/'] + hyphenated(
            server.client_uuid,
        ) ==> (action matches AcceptAction::Finish(Ok(_))),
{
    if asked@ == seq!['/'] + hyphenated(server.client_uuid) && asked@ == seq!['/'] + hyphenated(
        server.publish_uuid,
    ) {
        assert(asked@.skip(1) =~= hyphenated(server.client_uuid));
        assert(asked@.skip(1) =~= hyphenated(server.publish_uuid));
        law_text_identifies(server.publish_uuid, server.client_uuid);
    }
}

/// A connection whose address is known is made a websocket, and one that cannot be is an error.
/// One that asks for no path is dropped.
pub proof fn law_every_connection_is_negotiated<B: Clone>(
    server: ServerView<B>,
    event: AcceptEvent,
    action: AcceptAction<B>,
)
    requires
        server.accept_connection(event, action),
    ensures
        event matches AcceptEvent::Opened(Ok(peer)) ==> action == (AcceptAction::<B>::Negotiate {
            peer,
        }),
        event matches AcceptEvent::Opened(Err(text)) ==> action == AcceptAction::<B>::Finish(
            Err(Error::Io(text)),
        ),
        event matches AcceptEvent::Negotiated { path: Err(text), .. } ==> action
            == AcceptAction::<B>::Finish(Err(Error::NewConnection(text))),
        event matches AcceptEvent::Negotiated { path: Ok(None), .. } ==> (
        action matches AcceptAction::Finish(Ok(_))),
{
}

/// What the running server does on each event, in whatever state it is. Its paths and address
/// never change, and its broker only when one has been started.
pub proof fn law_what_a_running_server_does<B: Clone>(
    server: ServerView<B>,
    event: RunEvent<B>,
    post: ServerView<B>,
    action: RunActionView<B>,
)
    requires
        server.run(event, post, action),
    ensures
        event is Start ==> action == RunActionView::<B>::Bind(server.listen_addr),
        event matches RunEvent::Bound(Ok(_)) ==> action == (RunActionView::<B>::StartBroker {
            capacity: 10240,
        }),
        event matches RunEvent::Bound(Err(text)) ==> action == RunActionView::<B>::Finish(
            Err(Error::Io(text)),
        ),
        event is BrokerStarted ==> action is Accept,
        event matches RunEvent::Accepted(Ok(_)) ==> (action matches RunActionView::Spawn(copy)
            && copy.publish_uuid == server.publish_uuid && copy.client_uuid == server.client_uuid
            && copy.listen_addr == server.listen_addr && (copy.broker is Some
            <==> server.broker is Some) && (copy.broker is Some ==> cloned(
            server.broker->0,
            copy.broker->0,
        ))),
        event matches RunEvent::Accepted(Err(_)) ==> (action matches RunActionView::Finish(Ok(_))),
        event is Spawned ==> action is Accept,
        post.publish_uuid == server.publish_uuid,
        post.client_uuid == server.client_uuid,
        post.listen_addr == server.listen_addr,
        post.broker == match event {
            RunEvent::BrokerStarted(broker) => Some(broker),
            _ => server.broker,
        },
{
}

/// The model of what the server needs done holds what the value does.
pub proof fn law_the_model_holds_what_is_needed<B>(action: RunAction<B>)
    ensures
        match action {
            RunAction::Bind(addr) => action@ == RunActionView::<B>::Bind(addr),
            RunAction::StartBroker { capacity } => action@ == (RunActionView::<B>::StartBroker {
                capacity,
            }),
            RunAction::Accept => action@ is Accept,
            RunAction::Spawn(server) => action@ == RunActionView::Spawn(server@),
            RunAction::Finish(result) => action@ == RunActionView::<B>::Finish(result),
        },
{
}

} // verus!
