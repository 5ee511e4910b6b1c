//! The broker keeps everything that was published and passes it on.
//!
//! A client that joins is sent the whole recording so far, in order; from then on it is sent
//! every message as it is published. `S` is the sending end of a client's channel. The broker
//! itself sends nothing: [`Broker::run`] says what to send next, lends the sending end out, and
//! takes it back together with the outcome.
use crate::addr::SocketAddr;
use crate::message::{Message, MessageView};
use vstd::prelude::*;

verus! {

/// What can be asked of the broker.
#[derive(Debug)]
pub enum BrokerMessage<S> {
    /// Record a message and pass it on to every client.
    Relay(Message),
    /// A client has joined.
    NewClient(SocketAddr, S),
    /// A client has left.
    DelClient(SocketAddr),
}

/// What happened outside since the broker last ran.
#[derive(Debug)]
pub enum BrokerEvent<S> {
    /// A message came in, or there will be no more.
    Received(Option<BrokerMessage<S>>),
    /// The send that was asked for is over. The sending end comes back.
    Sent { client: S, ok: bool },
}

/// What the broker needs done before it runs again.
#[derive(Debug)]
pub enum BrokerAction<S> {
    /// Wait for the next message.
    Receive,
    /// Send `msg` through `client`, which belongs to `peer`.
    Send { peer: SocketAddr, client: S, msg: Message },
    /// Nothing: the broker has ended.
    Done,
}

/// What the broker is in the middle of.
enum Task {
    /// Nothing: it waits for a message.
    Idle,
    /// Sending the recording to a new client. The message before `next` is under way.
    Replay { peer: SocketAddr, next: usize },
    /// Sending `msg` to the clients. It is under way to `peer`.
    Relay { peer: SocketAddr, msg: Message },
}

/// The broker.
pub struct Broker<S> {
    buffer: Vec<Message>,
    client_streams: Vec<(SocketAddr, S)>,
    /// Clients that the message being relayed has not been sent to.
    waiting: Vec<(SocketAddr, S)>,
    task: Task,
}

/// The model of [`BrokerMessage`].
pub enum BrokerMessageView<S> {
    Relay(MessageView),
    NewClient(SocketAddr, S),
    DelClient(SocketAddr),
}

/// The model of [`BrokerEvent`].
pub enum BrokerEventView<S> {
    Received(Option<BrokerMessageView<S>>),
    Sent { client: S, ok: bool },
}

/// The model of [`BrokerAction`].
pub enum BrokerActionView<S> {
    Receive,
    Send { peer: SocketAddr, client: S, msg: MessageView },
    Done,
}

/// The model of what the broker is in the middle of.
pub enum TaskView<S> {
    Idle,
    Replay { peer: SocketAddr, next: nat },
    /// `waiting` holds the clients that the message has not been sent to.
    Relay { peer: SocketAddr, msg: MessageView, waiting: Map<SocketAddr, S> },
}

/// The model of [`Broker`].
#[verifier::ext_equal]
pub struct BrokerView<S> {
    /// Everything that was published, oldest first.
    pub buffer: Seq<MessageView>,
    /// The clients that are up to date.
    pub clients: Map<SocketAddr, S>,
    pub task: TaskView<S>,
}

impl<S> View for BrokerMessage<S> {
    type V = BrokerMessageView<S>;

    open spec fn view(&self) -> BrokerMessageView<S> {
        match *self {
            BrokerMessage::Relay(msg) => BrokerMessageView::Relay(msg@),
            BrokerMessage::NewClient(peer, client) => BrokerMessageView::NewClient(peer, client),
            BrokerMessage::DelClient(peer) => BrokerMessageView::DelClient(peer),
        }
    }
}

impl<S> View for BrokerEvent<S> {
    type V = BrokerEventView<S>;

    open spec fn view(&self) -> BrokerEventView<S> {
        match *self {
            BrokerEvent::Received(None) => BrokerEventView::Received(None),
            BrokerEvent::Received(Some(msg)) => BrokerEventView::Received(Some(msg@)),
            BrokerEvent::Sent { client, ok } => BrokerEventView::Sent { client, ok },
        }
    }
}

impl<S> View for BrokerAction<S> {
    type V = BrokerActionView<S>;

    open spec fn view(&self) -> BrokerActionView<S> {
        match *self {
            BrokerAction::Receive => BrokerActionView::Receive,
            BrokerAction::Send { peer, client, msg } => BrokerActionView::Send {
                peer,
                client,
                msg: msg@,
            },
            BrokerAction::Done => BrokerActionView::Done,
        }
    }
}

impl<S> BrokerView<S> {
    /// A broker that has recorded nothing and knows nobody.
    pub open spec fn init() -> Self {
        BrokerView { buffer: Seq::empty(), clients: Map::empty(), task: TaskView::Idle }
    }

    /// The broker waits for a message when it is idle, and for the outcome of a send when it
    /// is not.
    pub open spec fn expects(self, event: BrokerEventView<S>) -> bool {
        self.task is Idle <==> event is Received
    }

    /// From here, with `waiting` not served yet, `msg` goes to any one client that waits for
    /// it; once nobody waits the broker is idle again.
    pub open spec fn passes_on(
        self,
        msg: MessageView,
        waiting: Map<SocketAddr, S>,
        post: Self,
        action: BrokerActionView<S>,
    ) -> bool {
        &&& post.buffer == self.buffer
        &&& post.clients == self.clients
        &&& match action {
            BrokerActionView::Receive => waiting.dom() =~= Set::empty() && post.task is Idle,
            BrokerActionView::Send { peer, client, msg: sent } => {
                &&& sent == msg
                &&& waiting.contains_pair(peer, client)
                &&& post.task == TaskView::Relay { peer, msg, waiting: waiting.remove(peer) }
            },
            BrokerActionView::Done => false,
        }
    }

    /// What the broker does on `event`.
    pub open spec fn step(
        self,
        event: BrokerEventView<S>,
        post: Self,
        action: BrokerActionView<S>,
    ) -> bool {
        match (event, self.task) {
            (BrokerEventView::Received(None), _) => {
                &&& post == self
                &&& action is Done
            },
            (BrokerEventView::Received(Some(BrokerMessageView::NewClient(peer, client))), _) => {
                self.replays(peer, client, 0, post, action)
            },
            (BrokerEventView::Received(Some(BrokerMessageView::DelClient(peer))), _) => {
                &&& post == (BrokerView { clients: self.clients.remove(peer), ..self })
                &&& action is Receive
            },
            (BrokerEventView::Received(Some(BrokerMessageView::Relay(msg))), _) => {
                BrokerView {
                    buffer: self.buffer.push(msg),
                    clients: Map::empty(),
                    task: TaskView::Idle,
                }.passes_on(msg, self.clients, post, action)
            },
            (
                BrokerEventView::Sent { client, ok },
                TaskView::Replay { peer, next },
            ) => self.replays(peer, client, next, post, action),
            (
                BrokerEventView::Sent { client, ok },
                TaskView::Relay { peer, msg, waiting },
            ) => {
                BrokerView {
                    clients: if ok {
                        self.clients.insert(peer, client)
                    } else {
                        self.clients
                    },
                    ..self
                }.passes_on(msg, waiting, post, action)
            },
            (BrokerEventView::Sent { .. }, TaskView::Idle) => false,
        }
    }

    /// The recording from number `next` on goes to `peer`, one message at a time. Whether a
    /// send worked makes no difference. With the last one sent, the client is up to date.
    pub open spec fn replays(
        self,
        peer: SocketAddr,
        client: S,
        next: nat,
        post: Self,
        action: BrokerActionView<S>,
    ) -> bool {
        if next < self.buffer.len() {
            &&& post == (BrokerView { task: TaskView::Replay { peer, next: next + 1 }, ..self })
            &&& action == BrokerActionView::Send { peer, client, msg: self.buffer[next as int] }
        } else {
            &&& post == (BrokerView {
                clients: self.clients.insert(peer, client),
                task: TaskView::Idle,
                ..self
            })
            &&& action is Receive
        }
    }
}

/// The clients in a list, by address. Of two with one address the later counts.
spec fn by_address<S>(list: Seq<(SocketAddr, S)>) -> Map<SocketAddr, S>
    decreases list.len(),
{
    if list.len() == 0 {
        Map::empty()
    } else {
        by_address(list.drop_last()).insert(list.last().0, list.last().1)
    }
}

/// No two clients in the list have the same address.
spec fn distinct<S>(list: Seq<(SocketAddr, S)>) -> bool {
    forall|i: int, j: int| 0 <= i < j < list.len() ==> list[i].0 != list[j].0
}

/// No client is in both lists.
spec fn disjoint<S>(left: Seq<(SocketAddr, S)>, right: Seq<(SocketAddr, S)>) -> bool {
    forall|i: int, j: int|
        0 <= i < left.len() && 0 <= j < right.len() ==> left[i].0 != right[j].0
}

spec fn lists<S>(list: Seq<(SocketAddr, S)>, peer: SocketAddr) -> bool {
    exists|i: int| 0 <= i < list.len() && list[i].0 == peer
}

proof fn lemma_by_address_dom<S>(list: Seq<(SocketAddr, S)>, peer: SocketAddr)
    ensures
        by_address(list).dom().contains(peer) <==> lists(list, peer),
    decreases list.len(),
{
    if list.len() > 0 {
        let front = list.drop_last();
        lemma_by_address_dom(front, peer);
        if lists(front, peer) {
            let i = choose|i: int| 0 <= i < front.len() && front[i].0 == peer;
            assert(list[i].0 == peer);
        }
        if list.last().0 == peer {
            assert(list[list.len() - 1].0 == peer);
        }
        if lists(list, peer) && list.last().0 != peer {
            let i = choose|i: int| 0 <= i < list.len() && list[i].0 == peer;
            assert(front[i].0 == peer);
        }
    }
}

proof fn lemma_by_address_push<S>(list: Seq<(SocketAddr, S)>, entry: (SocketAddr, S))
    ensures
        by_address(list.push(entry)) == by_address(list).insert(entry.0, entry.1),
{
    assert(list.push(entry).drop_last() =~= list);
}

proof fn lemma_by_address_remove<S>(list: Seq<(SocketAddr, S)>, i: int)
    requires
        distinct(list),
        0 <= i < list.len(),
    ensures
        by_address(list.remove(i)) == by_address(list).remove(list[i].0),
        by_address(list).contains_pair(list[i].0, list[i].1),
    decreases list.len(),
{
    let front = list.drop_last();
    if i == list.len() - 1 {
        assert(list.remove(i) =~= front);
        lemma_by_address_dom(front, list[i].0);
        assert(!lists(front, list[i].0));
        assert(by_address(front) =~= by_address(list).remove(list[i].0));
    } else {
        lemma_by_address_remove(front, i);
        assert(list.remove(i).drop_last() =~= front.remove(i));
        assert(list.remove(i).last() == list.last());
        assert(list[i].0 != list.last().0);
        assert(by_address(list.remove(i)) =~= by_address(list).remove(list[i].0));
    }
}

impl<S> View for Broker<S> {
    type V = BrokerView<S>;

    closed spec fn view(&self) -> BrokerView<S> {
        BrokerView {
            buffer: self.buffer@.map_values(|msg: Message| msg@),
            clients: by_address(self.client_streams@),
            task: match self.task {
                Task::Idle => TaskView::Idle,
                Task::Replay { peer, next } => TaskView::Replay { peer, next: next as nat },
                Task::Relay { peer, msg } => TaskView::Relay {
                    peer,
                    msg: msg@,
                    waiting: by_address(self.waiting@),
                },
            },
        }
    }
}

impl<S> Broker<S> {
    /// No client is listed twice, in one list or in both, and none is listed while the broker
    /// sends to it.
    pub closed spec fn wf(self) -> bool {
        &&& distinct(self.client_streams@)
        &&& distinct(self.waiting@)
        &&& disjoint(self.client_streams@, self.waiting@)
        &&& match self.task {
            Task::Relay { peer, .. } => {
                &&& !lists(self.client_streams@, peer)
                &&& !lists(self.waiting@, peer)
            },
            _ => self.waiting@.len() == 0,
        }
    }

    /// A broker that has recorded nothing and knows nobody.
    pub fn new() -> (broker: Self)
        ensures
            broker.wf(),
            broker@ == BrokerView::<S>::init(),
    {
        let broker = Broker {
            buffer: Vec::new(),
            client_streams: Vec::new(),
            waiting: Vec::new(),
            task: Task::Idle,
        };
        assert(broker@ =~= BrokerView::<S>::init());
        broker
    }

    /// Takes the broker from one outside event to the next thing it needs done.
    pub fn run(&mut self, event: BrokerEvent<S>) -> (action: BrokerAction<S>)
        requires
            old(self).wf(),
            old(self)@.expects(event@),
        ensures
            final(self).wf(),
            old(self)@.step(event@, final(self)@, action@),
    {
        match event {
            BrokerEvent::Received(None) => BrokerAction::Done,
            BrokerEvent::Received(Some(BrokerMessage::NewClient(peer, client))) => {
                self.replay(peer, client, 0)
            },
            BrokerEvent::Received(Some(BrokerMessage::DelClient(peer))) => {
                self.remove(peer);
                BrokerAction::Receive
            },
            BrokerEvent::Received(Some(BrokerMessage::Relay(msg))) => self.relay(msg),
            BrokerEvent::Sent { client, ok } => self.sent(client, ok),
        }
    }

    /// Sends message number `next` of the recording to a new client, or lists the client once
    /// it has the whole recording.
    fn replay(&mut self, peer: SocketAddr, client: S, next: usize) -> (action: BrokerAction<S>)
        requires
            old(self).wf(),
            !(old(self).task is Relay),
        ensures
            final(self).wf(),
            old(self)@.replays(peer, client, next as nat, final(self)@, action@),
    {
        if next < self.buffer.len() {
            let msg = self.buffer[next].clone();
            self.task = Task::Replay { peer, next: next + 1 };
            BrokerAction::Send { peer, client, msg }
        } else {
            self.task = Task::Idle;
            self.remove(peer);
            let ghost before = self.client_streams@;
            self.client_streams.push((peer, client));
            proof {
                lemma_by_address_push(before, (peer, client));
                lemma_by_address_dom(before, peer);
                assert(self@.clients =~= old(self)@.clients.insert(peer, client));
            }
            BrokerAction::Receive
        }
    }

    /// Takes a client off the list, if it is there.
    fn remove(&mut self, peer: SocketAddr)
        requires
            old(self).wf(),
            old(self).task is Idle,
        ensures
            final(self).wf(),
            final(self).task is Idle,
            final(self)@ == (BrokerView { clients: old(self)@.clients.remove(peer), ..old(self)@ }),
    {
        let mut i: usize = 0;
        while i < self.client_streams.len()
            invariant
                i <= self.client_streams@.len(),
                *self == *old(self),
                self.wf(),
                self.task is Idle,
                forall|j: int| 0 <= j < i ==> self.client_streams@[j].0 != peer,
            decreases self.client_streams@.len() - i,
        {
            if self.client_streams[i].0 == peer {
                let ghost before = self.client_streams@;
                let _client = self.client_streams.remove(i);
                proof {
                    lemma_by_address_remove(before, i as int);
                }
                return;
            }
            i = i + 1;
        }
        proof {
            lemma_by_address_dom(self.client_streams@, peer);
            assert(self@.clients.remove(peer) =~= self@.clients);
        }
    }

    /// Records a message and starts to pass it on.
    fn relay(&mut self, msg: Message) -> (action: BrokerAction<S>)
        requires
            old(self).wf(),
            old(self).task is Idle,
        ensures
            final(self).wf(),
            old(self)@.step(
                BrokerEventView::Received(Some(BrokerMessageView::Relay(msg@))),
                final(self)@,
                action@,
            ),
    {
        self.buffer.push(msg.clone());
        proof {
            assert(self@.buffer =~= old(self)@.buffer.push(msg@));
        }
        std::mem::swap(&mut self.client_streams, &mut self.waiting);
        self.pass_on(msg)
    }

    /// Sends `msg` to a client that waits for it, if there is one.
    fn pass_on(&mut self, msg: Message) -> (action: BrokerAction<S>)
        requires
            distinct(old(self).client_streams@),
            distinct(old(self).waiting@),
            disjoint(old(self).client_streams@, old(self).waiting@),
        ensures
            final(self).wf(),
            old(self)@.passes_on(msg@, by_address(old(self).waiting@), final(self)@, action@),
    {
        match self.waiting.pop() {
            Some((peer, client)) => {
                proof {
                    let before = old(self).waiting@;
                    lemma_by_address_remove(before, before.len() - 1);
                    assert(before.remove(before.len() - 1) =~= self.waiting@);
                }
                self.task = Task::Relay { peer, msg: msg.clone() };
                BrokerAction::Send { peer, client, msg }
            },
            None => {
                self.task = Task::Idle;
                BrokerAction::Receive
            },
        }
    }

    /// Takes a sending end back with the outcome of the send.
    fn sent(&mut self, client: S, ok: bool) -> (action: BrokerAction<S>)
        requires
            old(self).wf(),
            !(old(self).task is Idle),
        ensures
            final(self).wf(),
            old(self)@.step(BrokerEventView::Sent { client, ok }, final(self)@, action@),
    {
        let mut task = Task::Idle;
        std::mem::swap(&mut task, &mut self.task);
        match task {
            Task::Idle => BrokerAction::Receive,
            Task::Replay { peer, next } => self.replay(peer, client, next),
            Task::Relay { peer, msg } => {
                if ok {
                    let ghost before = self.client_streams@;
                    self.client_streams.push((peer, client));
                    proof {
                        lemma_by_address_push(before, (peer, client));
                    }
                }
                self.pass_on(msg)
            },
        }
    }
}

/// Nothing but the end of the channel ends the broker. Whenever it has nothing to send, it waits
/// for the next message.
pub proof fn law_only_the_end_of_the_channel_ends_the_broker<S>(
    pre: BrokerView<S>,
    event: BrokerEventView<S>,
    post: BrokerView<S>,
    action: BrokerActionView<S>,
)
    requires
        pre.expects(event),
        pre.step(event, post, action),
    ensures
        action is Done <==> event == BrokerEventView::<S>::Received(None),
        action is Send <==> !(post.task is Idle),
        action is Receive <==> post.task is Idle && event != BrokerEventView::<S>::Received(None),
        event == BrokerEventView::<S>::Received(None) ==> post == pre,
{
}

/// The broker listens for messages exactly when it has nothing under way, and for the outcome of
/// a send otherwise. At first it has recorded nothing, knows nobody and has nothing under way.
pub proof fn law_one_thing_at_a_time<S>(state: BrokerView<S>, event: BrokerEventView<S>)
    ensures
        state.expects(event) <==> (event is Received && state.task is Idle) || (event is Sent && !(
        state.task is Idle)),
        BrokerView::<S>::init().buffer.len() == 0,
        BrokerView::<S>::init().clients.dom() == Set::<SocketAddr>::empty(),
        BrokerView::<S>::init().task is Idle,
{
}

/// Publishing adds the message at the end of the recording, whatever it is and however long the
/// recording. Nothing else touches the recording.
pub proof fn law_only_publishing_changes_the_recording<S>(
    pre: BrokerView<S>,
    event: BrokerEventView<S>,
    post: BrokerView<S>,
    action: BrokerActionView<S>,
)
    requires
        pre.step(event, post, action),
    ensures
        match event {
            BrokerEventView::Received(Some(BrokerMessageView::Relay(msg))) => {
                &&& post.buffer.len() == pre.buffer.len() + 1
                &&& post.buffer.last() == msg
                &&& post.buffer.drop_last() == pre.buffer
            },
            _ => post.buffer == pre.buffer,
        },
{
    match event {
        BrokerEventView::Received(Some(BrokerMessageView::Relay(msg))) => {
            assert(pre.buffer.push(msg).drop_last() =~= pre.buffer);
        },
        _ => {},
    }
}

/// A client that joins is sent the first message of the recording through the end that it
/// brought. Where there is no recording it is listed at once.
pub proof fn law_joining_starts_at_the_first_message<S>(
    pre: BrokerView<S>,
    peer: SocketAddr,
    client: S,
    post: BrokerView<S>,
    action: BrokerActionView<S>,
)
    requires
        pre.step(
            BrokerEventView::Received(Some(BrokerMessageView::NewClient(peer, client))),
            post,
            action,
        ),
    ensures
        pre.buffer.len() > 0 ==> {
            &&& action == (BrokerActionView::Send { peer, client, msg: pre.buffer.first() })
            &&& post.clients == pre.clients
            &&& post.task == (TaskView::<S>::Replay { peer, next: 1 })
        },
        pre.buffer.len() == 0 ==> {
            &&& action is Receive
            &&& post.clients == pre.clients.insert(peer, client)
            &&& post.task is Idle
        },
{
}

/// While the recording is replayed, each outcome is followed by the next message, through the
/// end that came back, whether or not the send worked. After the last one the client is listed
/// and the broker waits for messages again.
pub proof fn law_replaying_goes_on_to_the_end<S>(
    pre: BrokerView<S>,
    peer: SocketAddr,
    next: nat,
    client: S,
    ok: bool,
    post: BrokerView<S>,
    action: BrokerActionView<S>,
)
    requires
        pre.task == (TaskView::<S>::Replay { peer, next }),
        pre.step(BrokerEventView::Sent { client, ok }, post, action),
    ensures
        next < pre.buffer.len() ==> {
            &&& action == (BrokerActionView::Send { peer, client, msg: pre.buffer[next as int] })
            &&& post.clients == pre.clients
            &&& post.task == (TaskView::<S>::Replay { peer, next: next + 1 })
        },
        next >= pre.buffer.len() ==> {
            &&& action is Receive
            &&& post.clients == pre.clients.insert(peer, client)
            &&& post.task is Idle
        },
{
}

/// A client that leaves is no longer listed. The others are, through the same ends as before.
pub proof fn law_leaving_takes_one_client_off<S>(
    pre: BrokerView<S>,
    peer: SocketAddr,
    post: BrokerView<S>,
    action: BrokerActionView<S>,
    other: SocketAddr,
)
    requires
        pre.step(
            BrokerEventView::Received(Some(BrokerMessageView::DelClient(peer))),
            post,
            action,
        ),
    ensures
        !post.clients.contains_key(peer),
        other != peer ==> {
            &&& post.clients.contains_key(other) <==> pre.clients.contains_key(other)
            &&& pre.clients.contains_key(other) ==> post.clients[other] == pre.clients[other]
        },
        post.task == pre.task,
        action is Receive,
{
}

/// A message that is published goes to some client first, if there is any. The others wait for
/// it, each with its own end, and nobody else does.
pub proof fn law_publishing_leaves_nobody_out<S>(
    pre: BrokerView<S>,
    msg: MessageView,
    post: BrokerView<S>,
    action: BrokerActionView<S>,
    other: SocketAddr,
)
    requires
        pre.step(BrokerEventView::Received(Some(BrokerMessageView::Relay(msg))), post, action),
    ensures
        action is Receive <==> forall|p: SocketAddr| !#[trigger] pre.clients.contains_key(p),
        action is Receive || action is Send,
        action matches BrokerActionView::Send { peer, client, msg: sent } ==> {
            &&& sent == msg
            &&& pre.clients.contains_key(peer) && pre.clients[peer] == client
            &&& post.task matches TaskView::Relay { peer: to, msg: relayed, waiting }
            &&& to == peer && relayed == msg
            &&& waiting.contains_key(other) <==> pre.clients.contains_key(other) && other != peer
            &&& waiting.contains_key(other) ==> waiting[other] == pre.clients[other]
        },
        !post.clients.contains_key(other),
{
    if action is Receive {
        assert forall|p: SocketAddr| !#[trigger] pre.clients.contains_key(p) by {
            assert(!pre.clients.dom().contains(p));
        }
    }
}

/// With each outcome of a relay, the message goes on to some client that waits for it, until
/// nobody waits. The client that it went to stays listed, through the end that came back, if and
/// only if the send worked.
pub proof fn law_relaying_goes_on_to_the_end<S>(
    pre: BrokerView<S>,
    peer: SocketAddr,
    msg: MessageView,
    waiting: Map<SocketAddr, S>,
    client: S,
    ok: bool,
    post: BrokerView<S>,
    action: BrokerActionView<S>,
    other: SocketAddr,
)
    requires
        pre.task == (TaskView::<S>::Relay { peer, msg, waiting }),
        pre.step(BrokerEventView::Sent { client, ok }, post, action),
    ensures
        action is Receive <==> forall|p: SocketAddr| !#[trigger] waiting.contains_key(p),
        action is Receive || action is Send,
        action matches BrokerActionView::Send { peer: to, client: end, msg: sent } ==> {
            &&& sent == msg
            &&& waiting.contains_key(to) && waiting[to] == end
            &&& post.task matches TaskView::Relay { peer: next, msg: relayed, waiting: left }
            &&& next == to && relayed == msg
            &&& left.contains_key(other) <==> waiting.contains_key(other) && other != to
            &&& left.contains_key(other) ==> left[other] == waiting[other]
        },
        ok ==> post.clients.contains_key(peer) && post.clients[peer] == client,
        !ok ==> (post.clients.contains_key(peer) <==> pre.clients.contains_key(peer)),
        other != peer ==> {
            &&& post.clients.contains_key(other) <==> pre.clients.contains_key(other)
            &&& pre.clients.contains_key(other) ==> post.clients[other] == pre.clients[other]
        },
{
    if action is Receive {
        assert forall|p: SocketAddr| !#[trigger] waiting.contains_key(p) by {
            assert(!waiting.dom().contains(p));
        }
    }
}

/// The models hold what the values do, kind by kind.
pub proof fn law_models_hold_what_the_values_do<S>(
    request: BrokerMessage<S>,
    event: BrokerEvent<S>,
    action: BrokerAction<S>,
)
    ensures
        match request {
            BrokerMessage::Relay(msg) => request@ == BrokerMessageView::<S>::Relay(msg@),
            BrokerMessage::NewClient(peer, client) => request@ == BrokerMessageView::NewClient(
                peer,
                client,
            ),
            BrokerMessage::DelClient(peer) => request@ == BrokerMessageView::<S>::DelClient(peer),
        },
        match event {
            BrokerEvent::Received(None) => event@ == BrokerEventView::<S>::Received(None),
            BrokerEvent::Received(Some(msg)) => event@ == BrokerEventView::Received(Some(msg@)),
            BrokerEvent::Sent { client, ok } => event@ == (BrokerEventView::Sent { client, ok }),
        },
        match action {
            BrokerAction::Receive => action@ is Receive,
            BrokerAction::Send { peer, client, msg } => action@ == (BrokerActionView::Send {
                peer,
                client,
                msg: msg@,
            }),
            BrokerAction::Done => action@ is Done,
        },
{
}

} // verus!
