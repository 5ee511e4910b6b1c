//! What each client gets.
use crate::addr::SocketAddr;
use crate::broker::{
    BrokerActionView, BrokerEventView, BrokerMessageView, BrokerView, TaskView,
};
use crate::history::{
    is_run, joined, law_clients_have_the_whole_recording, law_only_those_who_joined_are_sent_to,
    lemma_progress, published, sent_to, state_after, Turn,
};
use crate::message::MessageView;
use vstd::prelude::*;

verus! {

/// `peer` joins in this turn.
pub open spec fn joins<S>(turn: Turn<S>, peer: SocketAddr) -> bool {
    turn.event matches BrokerEventView::Received(Some(BrokerMessageView::NewClient(p, _))) && p
        == peer
}

/// The last of these turns brings the news that a send did not work.
pub open spec fn fails<S>(turns: Seq<Turn<S>>) -> bool {
    turns.last().event matches BrokerEventView::Sent { ok: false, .. }
}

/// Every message that was relayed to `peer` since it last joined could be sent. Sends that
/// replay the recording do not count.
pub open spec fn relays_worked<S>(turns: Seq<Turn<S>>, peer: SocketAddr) -> bool
    decreases turns.len(),
{
    turns.len() == 0 || joins(turns.last(), peer) || {
        let earlier = turns.drop_last();
        let relayed = match state_after(BrokerView::init(), earlier).task {
            TaskView::Relay { peer: to, .. } => to == peer,
            _ => false,
        };
        relays_worked(earlier, peer) && !(fails(turns) && relayed)
    }
}

/// The recording could be sent to `peer` when it last joined.
pub open spec fn replays_worked<S>(turns: Seq<Turn<S>>, peer: SocketAddr) -> bool
    decreases turns.len(),
{
    turns.len() == 0 || joins(turns.last(), peer) || {
        let earlier = turns.drop_last();
        let replayed = match state_after(BrokerView::init(), earlier).task {
            TaskView::Replay { peer: to, .. } => to == peer,
            _ => false,
        };
        replays_worked(earlier, peer) && !(fails(turns) && replayed)
    }
}

/// `peer` has joined and has not left since, and every message that was relayed to it since
/// could be sent.
pub open spec fn stays<S>(turns: Seq<Turn<S>>, peer: SocketAddr) -> bool {
    joined(turns, peer) && relays_worked(turns, peer)
}

proof fn lemma_known_clients_stay<S>(turns: Seq<Turn<S>>, peer: SocketAddr)
    requires
        is_run(BrokerView::init(), turns),
    ensures
        ({
            let state = state_after(BrokerView::init(), turns);
            stays(turns, peer) <==> state.clients.contains_key(peer) || match state.task {
                TaskView::Idle => false,
                TaskView::Replay { peer: to, .. } => to == peer,
                TaskView::Relay { peer: to, msg: _, waiting } => to == peer
                    || waiting.contains_key(peer),
            }
        }),
    decreases turns.len(),
{
    if turns.len() > 0 {
        lemma_progress(turns.drop_last());
        lemma_known_clients_stay(turns.drop_last(), peer);
    }
}

/// An idle broker lists exactly the clients that have joined, have not left, and that no relay
/// has failed for.
pub proof fn law_who_stays_is_listed<S>(turns: Seq<Turn<S>>, peer: SocketAddr)
    requires
        is_run(BrokerView::init(), turns),
        state_after(BrokerView::init(), turns).task is Idle,
    ensures
        state_after(BrokerView::init(), turns).clients.contains_key(peer) <==> stays(turns, peer),
{
    lemma_known_clients_stay(turns, peer);
}

/// A client that has joined and has not left, and that no relay has failed for, has been sent
/// everything that was ever published, in order and nothing else, once the broker is idle.
/// Whether the recording reached it when it joined is another matter.
pub proof fn law_who_stays_is_sent_everything<S>(turns: Seq<Turn<S>>, peer: SocketAddr)
    requires
        is_run(BrokerView::init(), turns),
        state_after(BrokerView::init(), turns).task is Idle,
        stays(turns, peer),
    ensures
        sent_to(turns, peer) == published(turns),
{
    law_who_stays_is_listed(turns, peer);
    law_clients_have_the_whole_recording(turns, peer);
}

/// The sending end that `peer` last joined with.
pub open spec fn joined_with<S>(turns: Seq<Turn<S>>, peer: SocketAddr) -> Option<S>
    decreases turns.len(),
{
    if turns.len() == 0 {
        None
    } else {
        match turns.last().event {
            BrokerEventView::Received(Some(BrokerMessageView::NewClient(p, client))) if p == peer =>
                Some(client),
            _ => joined_with(turns.drop_last(), peer),
        }
    }
}

/// With the outcome of a send, the sending end comes back that was lent out for it.
pub open spec fn ends_come_back<S>(turns: Seq<Turn<S>>) -> bool
    decreases turns.len(),
{
    turns.len() > 0 ==> {
        let earlier = turns.drop_last();
        &&& ends_come_back(earlier)
        &&& (earlier.len() > 0 && turns.last().event is Sent) ==> (
            earlier.last().action matches BrokerActionView::Send { client, .. }
                ==> turns.last().event->Sent_client == client)
    }
}

/// Everything that was sent through the sending end that `peer` last joined with, since it did,
/// oldest first. A message counts once its send is known to have worked.
pub open spec fn delivered<S>(turns: Seq<Turn<S>>, peer: SocketAddr) -> Seq<MessageView>
    decreases turns.len(),
{
    if turns.len() == 0 || joins(turns.last(), peer) {
        Seq::empty()
    } else {
        let earlier = turns.drop_last();
        let before = delivered(earlier, peer);
        let worked = earlier.len() > 0 && turns.last().event is Sent && !fails(turns);
        match earlier.last().action {
            BrokerActionView::Send { peer: to, client, msg } if worked && to == peer && joined_with(
                earlier,
                peer,
            ) == Some(client) => before.push(msg),
            _ => before,
        }
    }
}

/// The sending end of each client that the broker knows is the one it last joined with.
spec fn ends_are_right<S>(turns: Seq<Turn<S>>) -> bool {
    let state = state_after(BrokerView::init(), turns);
    match state.task {
        TaskView::Idle => forall|p: SocketAddr| #[trigger]
            state.clients.contains_key(p) ==> joined_with(turns, p) == Some(state.clients[p]),
        TaskView::Replay { peer, .. } => {
            &&& turns.last().action matches BrokerActionView::Send { peer: to, client, .. } && to
                == peer && joined_with(turns, peer) == Some(client)
            &&& forall|p: SocketAddr| #[trigger]
                state.clients.contains_key(p) && p != peer ==> joined_with(turns, p) == Some(
                    state.clients[p],
                )
        },
        TaskView::Relay { peer, msg: _, waiting } => {
            &&& turns.last().action matches BrokerActionView::Send { peer: to, client, .. } && to
                == peer && joined_with(turns, peer) == Some(client)
            &&& forall|p: SocketAddr| #[trigger]
                state.clients.contains_key(p) ==> joined_with(turns, p) == Some(state.clients[p])
            &&& forall|p: SocketAddr| #[trigger]
                waiting.contains_key(p) ==> joined_with(turns, p) == Some(waiting[p])
        },
    }
}

proof fn lemma_ends_are_right<S>(turns: Seq<Turn<S>>)
    requires
        is_run(BrokerView::init(), turns),
        ends_come_back(turns),
    ensures
        ends_are_right(turns),
    decreases turns.len(),
{
    if turns.len() > 0 {
        lemma_ends_are_right(turns.drop_last());
    }
}

/// Whatever is sent to a client goes through the sending end that it last joined with.
pub proof fn law_sends_go_through_the_latest_end<S>(turns: Seq<Turn<S>>)
    requires
        is_run(BrokerView::init(), turns),
        ends_come_back(turns),
        turns.len() > 0,
    ensures
        turns.last().action matches BrokerActionView::Send { peer, client, .. } ==> joined_with(
            turns,
            peer,
        ) == Some(client),
{
    lemma_ends_are_right(turns);
    lemma_ends_are_right(turns.drop_last());
}

/// Whom the broker is sending a message to.
spec fn target<S>(task: TaskView<S>) -> Option<SocketAddr> {
    match task {
        TaskView::Idle => None,
        TaskView::Replay { peer, .. } => Some(peer),
        TaskView::Relay { peer, .. } => Some(peer),
    }
}

/// What was sent to a client that stays has been delivered, but for a message under way.
proof fn lemma_under_way<S>(turns: Seq<Turn<S>>, peer: SocketAddr)
    requires
        is_run(BrokerView::init(), turns),
        ends_come_back(turns),
        stays(turns, peer),
        replays_worked(turns, peer),
    ensures
        if target(state_after(BrokerView::init(), turns).task) == Some(peer) {
            turns.last().action matches BrokerActionView::Send { peer: to, client: _, msg } && to
                == peer && sent_to(turns, peer) == delivered(turns, peer).push(msg)
        } else {
            sent_to(turns, peer) == delivered(turns, peer)
        },
    decreases turns.len(),
{
    let earlier = turns.drop_last();
    if !joins(turns.last(), peer) {
        lemma_under_way(earlier, peer);
        lemma_ends_are_right(earlier);
    }
}

/// What was sent to a client has been delivered, as soon as no message is under way to it and
/// if no send to it failed since it last joined.
proof fn lemma_delivered<S>(turns: Seq<Turn<S>>, peer: SocketAddr)
    requires
        is_run(BrokerView::init(), turns),
        ends_come_back(turns),
        state_after(BrokerView::init(), turns).task is Idle || !joined(turns, peer),
        relays_worked(turns, peer),
        replays_worked(turns, peer),
    ensures
        delivered(turns, peer) == sent_to(turns, peer),
    decreases turns.len(),
{
    if joined(turns, peer) {
        lemma_under_way(turns, peer);
    } else if turns.len() > 0 {
        let earlier = turns.drop_last();
        lemma_delivered(earlier, peer);
        law_only_those_who_joined_are_sent_to(turns);
        if earlier.len() > 0 {
            law_only_those_who_joined_are_sent_to(earlier);
        }
    }
}

/// A client that has joined and has not left, and that no send failed for, has everything that
/// was ever published, in order and nothing else, once the broker is idle. All of it came
/// through the sending end that the client last joined with.
pub proof fn law_who_stays_has_everything<S>(turns: Seq<Turn<S>>, peer: SocketAddr)
    requires
        is_run(BrokerView::init(), turns),
        ends_come_back(turns),
        state_after(BrokerView::init(), turns).task is Idle,
        stays(turns, peer),
        replays_worked(turns, peer),
    ensures
        delivered(turns, peer) == published(turns),
{
    law_who_stays_is_sent_everything(turns, peer);
    lemma_delivered(turns, peer);
}

/// What the broker was asked, oldest first.
pub open spec fn requests<S>(turns: Seq<Turn<S>>) -> Seq<BrokerMessageView<S>>
    decreases turns.len(),
{
    if turns.len() == 0 {
        Seq::empty()
    } else {
        let before = requests(turns.drop_last());
        match turns.last().event {
            BrokerEventView::Received(Some(request)) => before.push(request),
            _ => before,
        }
    }
}

/// The request is to publish something, or is about `peer`.
pub open spec fn concerns<S>(request: BrokerMessageView<S>, peer: SocketAddr) -> bool {
    match request {
        BrokerMessageView::Relay(_) => true,
        BrokerMessageView::NewClient(p, _) => p == peer,
        BrokerMessageView::DelClient(p) => p == peer,
    }
}

/// Those of the requests that publish something or are about `peer`.
pub open spec fn concerning<S>(
    requests: Seq<BrokerMessageView<S>>,
    peer: SocketAddr,
) -> Seq<BrokerMessageView<S>>
    decreases requests.len(),
{
    if requests.len() == 0 {
        Seq::empty()
    } else {
        let before = concerning(requests.drop_last(), peer);
        if concerns(requests.last(), peer) {
            before.push(requests.last())
        } else {
            before
        }
    }
}

/// Everything that was asked to be published, oldest first.
pub open spec fn publications<S>(requests: Seq<BrokerMessageView<S>>) -> Seq<MessageView>
    decreases requests.len(),
{
    if requests.len() == 0 {
        Seq::empty()
    } else {
        let before = publications(requests.drop_last());
        match requests.last() {
            BrokerMessageView::Relay(msg) => before.push(msg),
            _ => before,
        }
    }
}

/// By these requests, `peer` has joined and has not left since.
pub open spec fn attends<S>(requests: Seq<BrokerMessageView<S>>, peer: SocketAddr) -> bool
    decreases requests.len(),
{
    requests.len() > 0 && match requests.last() {
        BrokerMessageView::NewClient(p, _) if p == peer => true,
        BrokerMessageView::DelClient(p) if p == peer => false,
        _ => attends(requests.drop_last(), peer),
    }
}

/// What `peer` is to be sent by these requests, since it last joined: everything from the first
/// publication on, until it leaves.
pub open spec fn owed<S>(requests: Seq<BrokerMessageView<S>>, peer: SocketAddr) -> Seq<MessageView>
    decreases requests.len(),
{
    if requests.len() == 0 {
        Seq::empty()
    } else {
        let earlier = requests.drop_last();
        match requests.last() {
            BrokerMessageView::NewClient(p, _) if p == peer => publications(earlier),
            BrokerMessageView::Relay(msg) if attends(earlier, peer) => owed(earlier, peer).push(msg),
            _ => owed(earlier, peer),
        }
    }
}

proof fn lemma_requests<S>(turns: Seq<Turn<S>>, peer: SocketAddr)
    ensures
        publications(requests(turns)) == published(turns),
        attends(requests(turns), peer) == joined(turns, peer),
        joined(turns, peer) ==> owed(requests(turns), peer) == published(turns),
    decreases turns.len(),
{
    if turns.len() > 0 {
        let earlier = turns.drop_last();
        lemma_requests(earlier, peer);
        if let BrokerEventView::Received(Some(request)) = turns.last().event {
            assert(requests(earlier).push(request).drop_last() =~= requests(earlier));
        }
    }
}

/// A client is sent what it is owed by the requests to the broker, as soon as nothing is under
/// way and unless a relay to it failed. The same is delivered to it, if no send failed at all.
pub proof fn law_clients_are_sent_what_they_are_owed<S>(turns: Seq<Turn<S>>, peer: SocketAddr)
    requires
        is_run(BrokerView::init(), turns),
        state_after(BrokerView::init(), turns).task is Idle || !joined(turns, peer),
        relays_worked(turns, peer),
    ensures
        sent_to(turns, peer) == owed(requests(turns), peer),
        ends_come_back(turns) && replays_worked(turns, peer) ==> delivered(turns, peer) == owed(
            requests(turns),
            peer,
        ),
    decreases turns.len(),
{
    lemma_requests(turns, peer);
    if joined(turns, peer) {
        law_who_stays_is_sent_everything(turns, peer);
    } else if turns.len() > 0 {
        let earlier = turns.drop_last();
        lemma_requests(earlier, peer);
        law_clients_are_sent_what_they_are_owed(earlier, peer);
        law_only_those_who_joined_are_sent_to(turns);
        if let BrokerEventView::Received(Some(request)) = turns.last().event {
            assert(requests(earlier).push(request).drop_last() =~= requests(earlier));
        }
    }
    if ends_come_back(turns) && replays_worked(turns, peer) {
        lemma_delivered(turns, peer);
    }
}

/// A client that left had been sent exactly what was published until it left, and is sent
/// nothing more unless it joins again. The same was delivered to it, if the recording was.
pub proof fn law_who_left_had_everything_until_then<S>(
    turns: Seq<Turn<S>>,
    n: int,
    peer: SocketAddr,
)
    requires
        is_run(BrokerView::init(), turns),
        0 <= n < turns.len(),
        stays(turns.take(n), peer),
        turns[n].event == BrokerEventView::<S>::Received(Some(BrokerMessageView::DelClient(peer))),
        forall|k: int| n < k < turns.len() ==> !joins(#[trigger] turns[k], peer),
    ensures
        !joined(turns, peer),
        sent_to(turns, peer) == published(turns.take(n)),
        ends_come_back(turns) && replays_worked(turns.take(n), peer) ==> delivered(turns, peer)
            == published(turns.take(n)),
    decreases turns.len(),
{
    let earlier = turns.drop_last();
    if n == turns.len() - 1 {
        assert(earlier =~= turns.take(n));
        law_who_stays_is_sent_everything(earlier, peer);
        if ends_come_back(turns) && replays_worked(earlier, peer) {
            law_who_stays_has_everything(earlier, peer);
        }
    } else {
        assert(earlier.take(n) =~= turns.take(n));
        assert(!joins(turns[turns.len() - 1], peer));
        assert forall|k: int| n < k < earlier.len() implies !joins(#[trigger] earlier[k], peer) by {
            assert(!joins(turns[k], peer));
        }
        law_who_left_had_everything_until_then(earlier, n, peer);
        law_only_those_who_joined_are_sent_to(earlier);
    }
    law_only_those_who_joined_are_sent_to(turns);
}

proof fn lemma_concerning<S>(requests: Seq<BrokerMessageView<S>>, peer: SocketAddr)
    ensures
        publications(concerning(requests, peer)) == publications(requests),
        attends(concerning(requests, peer), peer) == attends(requests, peer),
        owed(concerning(requests, peer), peer) == owed(requests, peer),
    decreases requests.len(),
{
    if requests.len() > 0 {
        let earlier = requests.drop_last();
        lemma_concerning(earlier, peer);
        if concerns(requests.last(), peer) {
            assert(concerning(requests, peer).drop_last() =~= concerning(earlier, peer));
        }
    }
}

/// What a client gets depends on what was published and on its own joining and leaving, not on
/// the other clients: where those are the same, so is what it is sent and what reaches it.
pub proof fn law_other_clients_make_no_difference<S>(
    turns: Seq<Turn<S>>,
    others: Seq<Turn<S>>,
    peer: SocketAddr,
)
    requires
        is_run(BrokerView::init(), turns),
        is_run(BrokerView::init(), others),
        state_after(BrokerView::init(), turns).task is Idle,
        state_after(BrokerView::init(), others).task is Idle,
        relays_worked(turns, peer),
        relays_worked(others, peer),
        concerning(requests(turns), peer) == concerning(requests(others), peer),
    ensures
        sent_to(turns, peer) == sent_to(others, peer),
        ends_come_back(turns) && replays_worked(turns, peer) && ends_come_back(others)
            && replays_worked(others, peer) ==> delivered(turns, peer) == delivered(others, peer),
{
    law_clients_are_sent_what_they_are_owed(turns, peer);
    law_clients_are_sent_what_they_are_owed(others, peer);
    lemma_concerning(requests(turns), peer);
    lemma_concerning(requests(others), peer);
}

} // verus!
