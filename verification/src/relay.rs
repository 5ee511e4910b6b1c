//! What holds of publisher, broker and client together.
use crate::addr::SocketAddr;
use crate::broker::BrokerView;
use crate::client::{incoming, law_output_is_what_the_server_sent, payloads, written, ConnectEvent};
use crate::delivery::{
    delivered, ends_come_back, law_who_stays_has_everything, replays_worked, stays,
};
use crate::history::{is_run, published, state_after, Turn};
use crate::message::{Message, MessageView};
use crate::publisher::{law_everything_received_is_relayed, received, relayed, PublisherEvent};
use crate::session::{forwarded, law_everything_published_is_forwarded, SessionEvent};
use vstd::prelude::*;

verus! {

/// What some messages hold.
pub open spec fn contents(messages: Seq<Message>) -> Seq<MessageView> {
    messages.map_values(|msg: Message| msg@)
}

/// What the publisher sent is what every client is sent that has joined, has not left and could
/// be reached, from the first message on, however late it joined; and the client's screen is
/// given the payloads one after the other. The channels between the parts have to hand over
/// what is put into them, in order.
pub proof fn law_clients_see_what_was_published<S>(
    publisher: Seq<PublisherEvent>,
    broker: Seq<Turn<S>>,
    peer: SocketAddr,
    session: Seq<SessionEvent>,
    client: Seq<ConnectEvent>,
)
    requires
        is_run(BrokerView::init(), broker),
        state_after(BrokerView::init(), broker).task is Idle,
        ends_come_back(broker),
        stays(broker, peer),
        replays_worked(broker, peer),
        published(broker) == contents(relayed(publisher)),
        crate::session::published(session) == delivered(broker, peer),
        incoming(client) == forwarded(peer, session),
    ensures
        forwarded(peer, session) == contents(received(publisher)),
        written(client) == payloads(contents(received(publisher))),
{
    law_everything_received_is_relayed(publisher);
    law_who_stays_has_everything(broker, peer);
    law_everything_published_is_forwarded(peer, session);
    law_output_is_what_the_server_sent(client);
}

} // verus!
