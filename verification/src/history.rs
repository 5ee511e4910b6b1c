//! What holds of the broker over a whole run.
use crate::addr::SocketAddr;
use crate::broker::{
    BrokerActionView, BrokerEventView, BrokerMessageView, BrokerView, TaskView,
};
use crate::message::MessageView;
use vstd::prelude::*;

verus! {

/// One turn of the broker: what happened, what the broker asked for, and how it was left.
pub struct Turn<S> {
    pub event: BrokerEventView<S>,
    pub action: BrokerActionView<S>,
    pub post: BrokerView<S>,
}

/// The broker after `turns`, where it was `start` before them.
pub open spec fn state_after<S>(start: BrokerView<S>, turns: Seq<Turn<S>>) -> BrokerView<S> {
    if turns.len() == 0 {
        start
    } else {
        turns.last().post
    }
}

/// `turns` can follow one another, from `start` on.
pub open spec fn is_run<S>(start: BrokerView<S>, turns: Seq<Turn<S>>) -> bool
    decreases turns.len(),
{
    turns.len() > 0 ==> {
        let pre = state_after(start, turns.drop_last());
        let turn = turns.last();
        &&& is_run(start, turns.drop_last())
        &&& pre.expects(turn.event)
        &&& pre.step(turn.event, turn.post, turn.action)
    }
}

/// Everything that was published in these turns, oldest first.
pub open spec fn published<S>(turns: Seq<Turn<S>>) -> Seq<MessageView>
    decreases turns.len(),
{
    if turns.len() == 0 {
        Seq::empty()
    } else {
        let before = published(turns.drop_last());
        match turns.last().event {
            BrokerEventView::Received(Some(BrokerMessageView::Relay(msg))) => before.push(msg),
            _ => before,
        }
    }
}

/// Everything that was to be sent to `peer` since it last joined, oldest first, whether or not
/// the sends worked.
pub open spec fn sent_to<S>(turns: Seq<Turn<S>>, peer: SocketAddr) -> Seq<MessageView>
    decreases turns.len(),
{
    if turns.len() == 0 {
        Seq::empty()
    } else {
        let before = match turns.last().event {
            BrokerEventView::Received(Some(BrokerMessageView::NewClient(joined, _))) if joined
                == peer => Seq::empty(),
            _ => sent_to(turns.drop_last(), peer),
        };
        match turns.last().action {
            BrokerActionView::Send { peer: to, client: _, msg } if to == peer => before.push(msg),
            _ => before,
        }
    }
}

/// The recording is everything that was published, in order: nothing is lost, added or changed.
pub proof fn law_recording_is_what_was_published<S>(turns: Seq<Turn<S>>)
    requires
        is_run(BrokerView::init(), turns),
    ensures
        state_after(BrokerView::init(), turns).buffer == published(turns),
    decreases turns.len(),
{
    if turns.len() > 0 {
        law_recording_is_what_was_published(turns.drop_last());
    }
}

/// How much of the recording each client has been sent.
pub open spec fn progress<S>(turns: Seq<Turn<S>>) -> bool {
    let state = state_after(BrokerView::init(), turns);
    match state.task {
        TaskView::Idle => forall|p: SocketAddr| #[trigger]
            state.clients.contains_key(p) ==> sent_to(turns, p) == state.buffer,
        TaskView::Replay { peer, next } => {
            &&& next <= state.buffer.len()
            &&& sent_to(turns, peer) == state.buffer.take(next as int)
            &&& forall|p: SocketAddr| #[trigger]
                state.clients.contains_key(p) && p != peer ==> sent_to(turns, p) == state.buffer
        },
        TaskView::Relay { peer, msg, waiting } => {
            &&& state.buffer.len() > 0
            &&& msg == state.buffer.last()
            &&& sent_to(turns, peer) == state.buffer
            &&& !waiting.contains_key(peer)
            &&& forall|p: SocketAddr| #[trigger]
                state.clients.contains_key(p) ==> !waiting.contains_key(p) && p != peer && sent_to(
                    turns,
                    p,
                ) == state.buffer
            &&& forall|p: SocketAddr| #[trigger]
                waiting.contains_key(p) ==> sent_to(turns, p) == state.buffer.drop_last()
        },
    }
}

/// That is how far they are, in every run.
pub proof fn lemma_progress<S>(turns: Seq<Turn<S>>)
    requires
        is_run(BrokerView::init(), turns),
    ensures
        progress(turns),
    decreases turns.len(),
{
    if turns.len() > 0 {
        let earlier = turns.drop_last();
        lemma_progress(earlier);
        let pre = state_after(BrokerView::init(), earlier);
        match turns.last().event {
            BrokerEventView::Received(Some(BrokerMessageView::Relay(msg))) => {
                assert(pre.buffer.push(msg).drop_last() =~= pre.buffer);
            },
            BrokerEventView::Received(Some(BrokerMessageView::NewClient(peer, _))) => {
                if pre.buffer.len() > 0 {
                    assert(pre.buffer.take(1) =~= Seq::empty().push(pre.buffer[0]));
                } else {
                    assert(pre.buffer =~= Seq::empty());
                }
            },
            BrokerEventView::Sent { .. } => {
                match pre.task {
                    TaskView::Replay { peer, next } => {
                        if next < pre.buffer.len() {
                            assert(pre.buffer.take(next as int).push(pre.buffer[next as int])
                                =~= pre.buffer.take((next + 1) as int));
                        } else {
                            assert(pre.buffer.take(next as int) =~= pre.buffer);
                        }
                    },
                    TaskView::Relay { peer, msg, waiting } => {
                        assert(pre.buffer.drop_last().push(msg) =~= pre.buffer);
                    },
                    _ => {},
                }
            },
            _ => {},
        }
    }
}

/// A client that the broker counts as up to date has been sent everything that was ever
/// published, in order and nothing else, however late it joined. The one exception is a client
/// that has just joined again and is still being sent the recording.
pub proof fn law_clients_have_the_whole_recording<S>(turns: Seq<Turn<S>>, peer: SocketAddr)
    requires
        is_run(BrokerView::init(), turns),
        state_after(BrokerView::init(), turns).clients.contains_key(peer),
        !(state_after(BrokerView::init(), turns).task matches TaskView::Replay { peer: joining, .. }
            && joining == peer),
    ensures
        sent_to(turns, peer) == published(turns),
{
    lemma_progress(turns);
    law_recording_is_what_was_published(turns);
}

/// `peer` has joined and has not left since.
pub open spec fn joined<S>(turns: Seq<Turn<S>>, peer: SocketAddr) -> bool
    decreases turns.len(),
{
    turns.len() > 0 && match turns.last().event {
        BrokerEventView::Received(Some(BrokerMessageView::NewClient(p, _))) => p == peer || joined(
            turns.drop_last(),
            peer,
        ),
        BrokerEventView::Received(Some(BrokerMessageView::DelClient(p))) => p != peer && joined(
            turns.drop_last(),
            peer,
        ),
        _ => joined(turns.drop_last(), peer),
    }
}

proof fn lemma_known_clients_joined<S>(turns: Seq<Turn<S>>, peer: SocketAddr)
    requires
        is_run(BrokerView::init(), turns),
    ensures
        ({
            let state = state_after(BrokerView::init(), turns);
            &&& state.clients.contains_key(peer) ==> joined(turns, peer)
            &&& match state.task {
                TaskView::Idle => true,
                TaskView::Replay { peer: to, .. } => to == peer ==> joined(turns, peer),
                TaskView::Relay { peer: to, msg: _, waiting } => to == peer
                    || waiting.contains_key(peer) ==> joined(turns, peer),
            }
        }),
    decreases turns.len(),
{
    if turns.len() > 0 {
        lemma_known_clients_joined(turns.drop_last(), peer);
    }
}

/// Nothing is sent to anybody who has not joined or has left since.
pub proof fn law_only_those_who_joined_are_sent_to<S>(turns: Seq<Turn<S>>)
    requires
        is_run(BrokerView::init(), turns),
        turns.len() > 0,
    ensures
        turns.last().action matches BrokerActionView::Send { peer, .. } ==> joined(turns, peer),
{
    if let BrokerActionView::Send { peer, .. } = turns.last().action {
        lemma_known_clients_joined(turns, peer);
        lemma_known_clients_joined(turns.drop_last(), peer);
    }
}

/// Every event after the first is the outcome of a send.
pub open spec fn one_round<S>(turns: Seq<Turn<S>>) -> bool {
    forall|i: int| 0 < i < turns.len() ==> (#[trigger] turns[i]).event is Sent
}

proof fn lemma_one_round_before<S>(turns: Seq<Turn<S>>)
    requires
        one_round(turns),
        turns.len() > 0,
    ensures
        one_round(turns.drop_last()),
{
    let earlier = turns.drop_last();
    assert forall|i: int| 0 < i < earlier.len() implies (#[trigger] earlier[i]).event is Sent by {
        assert(turns[i].event is Sent);
    }
}

/// The clients that a send in these turns failed for.
pub open spec fn failed<S>(turns: Seq<Turn<S>>) -> Set<SocketAddr>
    decreases turns.len(),
{
    if turns.len() < 2 {
        Set::empty()
    } else {
        let before = failed(turns.drop_last());
        match (turns[turns.len() - 2].action, turns.last().event) {
            (
                BrokerActionView::Send { peer, .. },
                BrokerEventView::Sent { client: _, ok: false },
            ) => before.insert(peer),
            _ => before,
        }
    }
}

proof fn lemma_relay_round<S>(start: BrokerView<S>, turns: Seq<Turn<S>>, msg: MessageView)
    requires
        start.task is Idle,
        is_run(start, turns),
        one_round(turns),
        turns.len() > 0,
        turns[0].event == BrokerEventView::<S>::Received(Some(BrokerMessageView::Relay(msg))),
    ensures
        ({
            let end = state_after(start, turns);
            &&& failed(turns).subset_of(start.clients.dom())
            &&& failed(turns).disjoint(end.clients.dom())
            &&& match end.task {
                TaskView::Idle => start.clients.dom() =~= end.clients.dom().union(failed(turns)),
                TaskView::Relay { peer, msg: relayed, waiting } => {
                    &&& turns.last().action matches BrokerActionView::Send { peer: to, .. } && to
                        == peer
                    &&& start.clients.contains_key(peer)
                    &&& !end.clients.contains_key(peer)
                    &&& !failed(turns).contains(peer)
                    &&& !waiting.contains_key(peer)
                    &&& failed(turns).disjoint(waiting.dom())
                    &&& end.clients.dom().disjoint(waiting.dom())
                    &&& start.clients.dom() =~= end.clients.dom().union(failed(turns)).union(
                        waiting.dom(),
                    ).insert(peer)
                },
                TaskView::Replay { .. } => false,
            }
        }),
    decreases turns.len(),
{
    if turns.len() > 1 {
        let earlier = turns.drop_last();
        lemma_one_round_before(turns);
        lemma_relay_round(start, earlier, msg);
        assert(turns[turns.len() - 1].event is Sent);
        assert(turns[turns.len() - 2] == earlier.last());
    } else {
        assert(turns.drop_last().len() == 0);
        assert(turns.last() == turns[0]);
    }
}

/// Passing a message on loses exactly the clients that could not be sent it.
pub proof fn law_relaying_drops_the_clients_that_fail<S>(
    start: BrokerView<S>,
    turns: Seq<Turn<S>>,
    msg: MessageView,
)
    requires
        start.task is Idle,
        is_run(start, turns),
        one_round(turns),
        turns.len() > 0,
        turns[0].event == BrokerEventView::<S>::Received(Some(BrokerMessageView::Relay(msg))),
        state_after(start, turns).task is Idle,
    ensures
        state_after(start, turns).clients.dom() == start.clients.dom().difference(failed(turns)),
{
    lemma_relay_round(start, turns, msg);
}

proof fn lemma_joining_round<S>(
    start: BrokerView<S>,
    turns: Seq<Turn<S>>,
    peer: SocketAddr,
    client: S,
)
    requires
        start.task is Idle,
        is_run(start, turns),
        one_round(turns),
        turns.len() > 0,
        turns[0].event == BrokerEventView::<S>::Received(
            Some(BrokerMessageView::NewClient(peer, client)),
        ),
    ensures
        ({
            let end = state_after(start, turns);
            &&& end.buffer == start.buffer
            &&& match end.task {
                TaskView::Idle => {
                    &&& end.clients.contains_key(peer)
                    &&& end.clients.remove(peer) =~= start.clients.remove(peer)
                },
                TaskView::Replay { peer: joining, .. } => {
                    &&& joining == peer
                    &&& end.clients == start.clients
                },
                TaskView::Relay { .. } => false,
            }
        }),
    decreases turns.len(),
{
    if turns.len() > 1 {
        let earlier = turns.drop_last();
        lemma_one_round_before(turns);
        lemma_joining_round(start, earlier, peer, client);
        assert(turns[turns.len() - 1].event is Sent);
    } else {
        assert(turns.drop_last().len() == 0);
        assert(turns.last() == turns[0]);
    }
}

/// A client that joins is listed once it has been sent the recording, whether or not those
/// sends worked, and nothing changes for the others.
pub proof fn law_joining_changes_nobody_else<S>(
    start: BrokerView<S>,
    turns: Seq<Turn<S>>,
    peer: SocketAddr,
    client: S,
)
    requires
        start.task is Idle,
        is_run(start, turns),
        one_round(turns),
        turns.len() > 0,
        turns[0].event == BrokerEventView::<S>::Received(
            Some(BrokerMessageView::NewClient(peer, client)),
        ),
        state_after(start, turns).task is Idle,
    ensures
        state_after(start, turns).buffer == start.buffer,
        state_after(start, turns).clients.contains_key(peer),
        state_after(start, turns).clients.remove(peer) == start.clients.remove(peer),
{
    lemma_joining_round(start, turns, peer, client);
}

/// A client that joins and leaves again leaves the broker as it was.
pub proof fn law_leaving_undoes_joining<S>(
    start: BrokerView<S>,
    turns: Seq<Turn<S>>,
    peer: SocketAddr,
    client: S,
    left: Turn<S>,
)
    requires
        start.task is Idle,
        !start.clients.contains_key(peer),
        is_run(start, turns),
        one_round(turns),
        turns.len() > 0,
        turns[0].event == BrokerEventView::<S>::Received(
            Some(BrokerMessageView::NewClient(peer, client)),
        ),
        state_after(start, turns).task is Idle,
        left.event == BrokerEventView::<S>::Received(Some(BrokerMessageView::DelClient(peer))),
        is_run(start, turns.push(left)),
    ensures
        state_after(start, turns.push(left)) == start,
{
    lemma_joining_round(start, turns, peer, client);
    assert(turns.push(left).drop_last() =~= turns);
    assert(start.clients.remove(peer) =~= start.clients);
    assert(left.post =~= start);
}

/// How many more sends the broker will ask for before it is idle.
pub open spec fn sends_left<S>(state: BrokerView<S>) -> nat {
    match state.task {
        TaskView::Idle => 0,
        TaskView::Replay { peer: _, next } => (state.buffer.len() - next + 1) as nat,
        TaskView::Relay { peer: _, msg: _, waiting } => waiting.dom().len() + 1,
    }
}

proof fn lemma_bounded<S>(turns: Seq<Turn<S>>)
    requires
        is_run(BrokerView::init(), turns),
    ensures
        ({
            let state = state_after(BrokerView::init(), turns);
            &&& state.clients.dom().finite()
            &&& match state.task {
                TaskView::Idle => true,
                TaskView::Replay { peer: _, next } => next <= state.buffer.len(),
                TaskView::Relay { peer: _, msg: _, waiting } => waiting.dom().finite(),
            }
        }),
    decreases turns.len(),
{
    if turns.len() > 0 {
        lemma_bounded(turns.drop_last());
    }
}

/// Each outcome of a send brings the broker one send closer to being idle, so it always gets
/// back to the messages that wait for it.
pub proof fn law_the_broker_comes_to_rest<S>(turns: Seq<Turn<S>>)
    requires
        is_run(BrokerView::init(), turns),
        turns.len() > 0,
        turns.last().event is Sent,
    ensures
        sends_left(state_after(BrokerView::init(), turns)) + 1 == sends_left(
            state_after(BrokerView::init(), turns.drop_last()),
        ),
{
    lemma_bounded(turns);
    lemma_bounded(turns.drop_last());
    let pre = state_after(BrokerView::init(), turns.drop_last());
    match pre.task {
        TaskView::Relay { peer: _, msg: _, waiting } => {
            if waiting.dom() =~= Set::empty() {
                assert(waiting.dom().len() == 0);
            }
        },
        _ => {},
    }
}

/// A client that joins is sent the messages of the recording one by one, from the first to the
/// last, whether or not the sends work. Then the broker waits for the next message.
pub proof fn law_joining_replays_everything<S>(
    start: BrokerView<S>,
    turns: Seq<Turn<S>>,
    peer: SocketAddr,
    client: S,
)
    requires
        start.task is Idle,
        is_run(start, turns),
        one_round(turns),
        turns.len() > 0,
        turns[0].event == BrokerEventView::<S>::Received(
            Some(BrokerMessageView::NewClient(peer, client)),
        ),
    ensures
        turns.len() <= start.buffer.len() ==> (turns.last().action matches BrokerActionView::Send {
            peer: to,
            client: _,
            msg,
        } && to == peer && msg == start.buffer[turns.len() - 1]),
        turns.len() == start.buffer.len() + 1 ==> turns.last().action is Receive,
        turns.len() <= start.buffer.len() + 1,
        state_after(start, turns).buffer == start.buffer,
        turns.len() <= start.buffer.len() ==> state_after(start, turns).task == (
        TaskView::<S>::Replay { peer, next: turns.len() }),
        turns.len() > start.buffer.len() ==> state_after(start, turns).task is Idle,
    decreases turns.len(),
{
    if turns.len() > 1 {
        lemma_one_round_before(turns);
        law_joining_replays_everything(start, turns.drop_last(), peer, client);
        assert(turns[turns.len() - 1].event is Sent);
    } else {
        assert(turns.drop_last().len() == 0);
        assert(turns.last() == turns[0]);
    }
}

} // verus!
