use repeater::addr::{Ipv4Addr, SocketAddr, SocketAddrV4};
use repeater::broker::{Broker, BrokerAction, BrokerEvent, BrokerMessage};
use repeater::message::Message;

fn peer(port: u16) -> SocketAddr {
    SocketAddr::V4(SocketAddrV4 { ip: Ipv4Addr { a: 127, b: 0, c: 0, d: 1 }, port })
}

fn text(s: &str) -> Message {
    Message::Text(s.to_string())
}

/// Runs the broker on one message until it is idle again. Sends through the clients in `dead`
/// fail. Returns what was sent, to whom and through which sending end.
fn feed(
    broker: &mut Broker<u64>,
    msg: BrokerMessage<u64>,
    dead: &[u64],
) -> Vec<(SocketAddr, u64, Message)> {
    let mut sent = Vec::new();
    let mut action = broker.run(BrokerEvent::Received(Some(msg)));
    loop {
        match action {
            BrokerAction::Receive => return sent,
            BrokerAction::Send { peer, client, msg } => {
                sent.push((peer, client, msg));
                let ok = !dead.contains(&client);
                action = broker.run(BrokerEvent::Sent { client, ok });
            }
            BrokerAction::Done => panic!("the broker has ended"),
        }
    }
}

#[test]
fn nothing_is_sent_to_nobody() {
    let mut broker = Broker::new();
    assert_eq!(feed(&mut broker, BrokerMessage::Relay(text("a")), &[]), vec![]);
}

#[test]
fn a_late_client_gets_the_recording_in_order() {
    let mut broker = Broker::new();
    for s in ["a", "b", "c"] {
        feed(&mut broker, BrokerMessage::Relay(text(s)), &[]);
    }
    let sent = feed(&mut broker, BrokerMessage::NewClient(peer(1), 10), &[]);
    let expected: Vec<_> = ["a", "b", "c"].iter().map(|s| (peer(1), 10, text(s))).collect();
    assert_eq!(sent, expected);
    let sent = feed(&mut broker, BrokerMessage::Relay(text("d")), &[]);
    assert_eq!(sent, vec![(peer(1), 10, text("d"))]);
}

#[test]
fn a_message_goes_to_every_client_once() {
    let mut broker = Broker::new();
    for port in 1..=4u16 {
        feed(&mut broker, BrokerMessage::NewClient(peer(port), port as u64), &[]);
    }
    let mut sent = feed(&mut broker, BrokerMessage::Relay(text("x")), &[]);
    sent.sort_by_key(|s| s.1);
    let expected: Vec<_> = (1..=4u16).map(|p| (peer(p), p as u64, text("x"))).collect();
    assert_eq!(sent, expected);
}

#[test]
fn a_client_that_fails_is_dropped() {
    let mut broker = Broker::new();
    for port in 1..=3u16 {
        feed(&mut broker, BrokerMessage::NewClient(peer(port), port as u64), &[]);
    }
    assert_eq!(feed(&mut broker, BrokerMessage::Relay(text("x")), &[2]).len(), 3);
    let mut left: Vec<u64> =
        feed(&mut broker, BrokerMessage::Relay(text("y")), &[]).iter().map(|s| s.1).collect();
    left.sort();
    assert_eq!(left, vec![1, 3]);
}

#[test]
fn a_client_that_fails_while_it_joins_stays() {
    let mut broker = Broker::new();
    feed(&mut broker, BrokerMessage::Relay(text("a")), &[]);
    feed(&mut broker, BrokerMessage::Relay(text("b")), &[]);
    let sent = feed(&mut broker, BrokerMessage::NewClient(peer(1), 1), &[1]);
    assert_eq!(sent.len(), 2);
    assert_eq!(feed(&mut broker, BrokerMessage::Relay(text("c")), &[]).len(), 1);
}

#[test]
fn a_client_that_left_gets_nothing() {
    let mut broker = Broker::new();
    feed(&mut broker, BrokerMessage::NewClient(peer(1), 1), &[]);
    feed(&mut broker, BrokerMessage::NewClient(peer(2), 2), &[]);
    feed(&mut broker, BrokerMessage::DelClient(peer(1)), &[]);
    feed(&mut broker, BrokerMessage::DelClient(peer(7)), &[]);
    let sent = feed(&mut broker, BrokerMessage::Relay(text("x")), &[]);
    assert_eq!(sent, vec![(peer(2), 2, text("x"))]);
}

#[test]
fn joining_again_replaces_the_sending_end() {
    let mut broker = Broker::new();
    feed(&mut broker, BrokerMessage::NewClient(peer(1), 1), &[]);
    feed(&mut broker, BrokerMessage::NewClient(peer(1), 9), &[]);
    let sent = feed(&mut broker, BrokerMessage::Relay(text("x")), &[]);
    assert_eq!(sent, vec![(peer(1), 9, text("x"))]);
}

#[test]
fn the_recording_outlives_the_clients() {
    let mut broker = Broker::new();
    feed(&mut broker, BrokerMessage::NewClient(peer(1), 1), &[]);
    feed(&mut broker, BrokerMessage::Relay(text("a")), &[1]);
    let sent = feed(&mut broker, BrokerMessage::NewClient(peer(1), 2), &[]);
    assert_eq!(sent, vec![(peer(1), 2, text("a"))]);
}

#[test]
fn the_broker_ends_when_there_are_no_more_messages() {
    let mut broker: Broker<u64> = Broker::new();
    assert!(matches!(broker.run(BrokerEvent::Received(None)), BrokerAction::Done));
}

#[test]
fn who_stays_has_everything_through_its_own_end() {
    let mut broker = Broker::new();
    let mut through: Vec<(u64, Message)> = Vec::new();
    for (msg, dead) in [
        (BrokerMessage::NewClient(peer(1), 1), vec![]),
        (BrokerMessage::Relay(text("a")), vec![]),
        (BrokerMessage::NewClient(peer(2), 2), vec![2]),
        (BrokerMessage::Relay(text("b")), vec![1]),
        (BrokerMessage::NewClient(peer(1), 3), vec![]),
        (BrokerMessage::DelClient(peer(9)), vec![]),
        (BrokerMessage::Relay(text("c")), vec![]),
    ] {
        through.extend(feed(&mut broker, msg, &dead).into_iter().map(|s| (s.1, s.2)));
    }
    let got = |end: u64| -> Vec<Message> {
        through.iter().filter(|s| s.0 == end).map(|s| s.1.clone()).collect()
    };
    assert_eq!(got(1), vec![text("a"), text("b")]);
    assert_eq!(got(2), vec![text("a"), text("b"), text("c")]);
    assert_eq!(got(3), vec![text("a"), text("b"), text("c")]);
}

#[test]
fn other_clients_make_no_difference() {
    let mut alone: Vec<Message> = Vec::new();
    let mut in_company: Vec<Message> = Vec::new();
    for company in [false, true] {
        let mut broker = Broker::new();
        let mut step = |msg: BrokerMessage<u64>, dead: &[u64]| {
            for (to, _, msg) in feed(&mut broker, msg, dead) {
                if to == peer(1) {
                    if company { &mut in_company } else { &mut alone }.push(msg);
                }
            }
        };
        step(BrokerMessage::Relay(text("a")), &[]);
        if company {
            step(BrokerMessage::NewClient(peer(2), 2), &[]);
        }
        step(BrokerMessage::NewClient(peer(1), 1), &[]);
        step(BrokerMessage::Relay(text("b")), &[2]);
        if company {
            step(BrokerMessage::NewClient(peer(3), 3), &[3]);
            step(BrokerMessage::DelClient(peer(3)), &[]);
        }
        step(BrokerMessage::DelClient(peer(1)), &[]);
        step(BrokerMessage::Relay(text("c")), &[]);
    }
    assert_eq!(alone, vec![text("a"), text("b")]);
    assert_eq!(in_company, alone);
}
