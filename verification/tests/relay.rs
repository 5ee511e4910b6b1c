use repeater::addr::{Ipv4Addr, SocketAddr, SocketAddrV4};
use repeater::broker::{Broker, BrokerAction, BrokerEvent, BrokerMessage};
use repeater::client::{new_connect, ConnectAction, ConnectEvent};
use repeater::message::Message;
use repeater::publisher::{run_publisher, PublisherAction, PublisherEvent};
use repeater::session::{ClientSession, SessionAction, SessionEvent};

/// Runs the broker on one message, and collects what it sends. Returns how many sends it took.
fn feed(broker: &mut Broker<()>, msg: BrokerMessage<()>, sent: &mut Vec<Message>) -> usize {
    let mut action = broker.run(BrokerEvent::Received(Some(msg)));
    let mut sends = 0;
    while let BrokerAction::Send { client, msg, .. } = action {
        sent.push(msg);
        sends += 1;
        action = broker.run(BrokerEvent::Sent { client, ok: true });
    }
    assert!(matches!(action, BrokerAction::Receive));
    sends
}

fn publish(msg: &Message) -> BrokerMessage<()> {
    match run_publisher(PublisherEvent::Incoming(Some(Ok(msg.clone())))) {
        PublisherAction::Relay(msg) => BrokerMessage::Relay(msg),
        other => panic!("{:?}", other),
    }
}

#[test]
fn clients_see_what_was_published() {
    let recording: Vec<Message> = vec![
        Message::Binary(b"one ".to_vec()),
        Message::Text("two ".to_string()),
        Message::Binary(b"three".to_vec()),
    ];
    let peer = SocketAddr::V4(SocketAddrV4 { ip: Ipv4Addr { a: 1, b: 2, c: 3, d: 4 }, port: 5 });

    let mut broker = Broker::new();
    let mut to_client = Vec::new();
    feed(&mut broker, publish(&recording[0]), &mut to_client);
    feed(&mut broker, publish(&recording[1]), &mut to_client);
    assert_eq!(feed(&mut broker, BrokerMessage::NewClient(peer, ()), &mut to_client), 2);
    assert_eq!(feed(&mut broker, publish(&recording[2]), &mut to_client), 1);
    assert_eq!(to_client, recording);

    let mut session = ClientSession::new(peer);
    let mut screen = Vec::new();
    for msg in to_client {
        let forwarded = match session.run_client(SessionEvent::Published(Some(msg))) {
            SessionAction::Forward(msg) => msg,
            other => panic!("{:?}", other),
        };
        match new_connect(ConnectEvent::Incoming(Some(Ok(forwarded)))) {
            ConnectAction::Write(data) => screen.extend(data),
            other => panic!("{:?}", other),
        }
    }
    assert_eq!(screen, b"one two three".to_vec());
}
