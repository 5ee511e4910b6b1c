use repeater::addr::{Ipv4Addr, SocketAddr, SocketAddrV4};
use repeater::error::Error;
use repeater::message::Message;
use repeater::publisher::{run_publisher, PublisherAction, PublisherEvent};
use repeater::session::{idle_check, ClientSession, IdleCheck, SessionAction, SessionEvent};

const WAIT: u64 = 5_000_000_000;

fn peer() -> SocketAddr {
    SocketAddr::V4(SocketAddrV4 { ip: Ipv4Addr { a: 10, b: 0, c: 0, d: 7 }, port: 5000 })
}

fn text(s: &str) -> Message {
    Message::Text(s.to_string())
}

#[test]
fn a_session_registers_first() {
    let mut session = ClientSession::new(peer());
    assert_eq!(
        session.run_client(SessionEvent::Start),
        SessionAction::Register { peer: peer(), capacity: 10240 }
    );
    assert_eq!(
        session.run_client(SessionEvent::Registered(Ok(()))),
        SessionAction::Select { wait: WAIT }
    );
    assert_eq!(
        session.run_client(SessionEvent::Registered(Err("closed".to_string()))),
        SessionAction::Finish(Err(Error::Mpsc("closed".to_string())))
    );
}

#[test]
fn a_session_forwards_what_is_published() {
    let mut session = ClientSession::new(peer());
    let mut forwarded = Vec::new();
    for s in ["a", "b"] {
        match session.run_client(SessionEvent::Published(Some(text(s)))) {
            SessionAction::Forward(msg) => forwarded.push(msg),
            other => panic!("{:?}", other),
        }
        assert_eq!(
            session.run_client(SessionEvent::Forwarded(Ok(()))),
            SessionAction::Select { wait: WAIT }
        );
    }
    assert_eq!(forwarded, vec![text("a"), text("b")]);
    assert_eq!(
        session.run_client(SessionEvent::Forwarded(Err("broken".to_string()))),
        SessionAction::Finish(Err(Error::Tunstenite("broken".to_string())))
    );
    assert_eq!(
        session.run_client(SessionEvent::Published(None)),
        SessionAction::Finish(Ok(()))
    );
}

#[test]
fn a_session_ignores_what_the_client_says() {
    let mut session = ClientSession::new(peer());
    for msg in [text("hi"), Message::Binary(vec![]), Message::Ping(vec![1]), Message::Close(None)] {
        assert_eq!(
            session.run_client(SessionEvent::Incoming { item: Some(Ok(msg)), now: 1 }),
            SessionAction::Select { wait: WAIT }
        );
    }
    assert_eq!(session, ClientSession::new(peer()));
}

#[test]
fn a_client_that_is_done_is_deregistered() {
    let mut session = ClientSession::new(peer());
    assert_eq!(
        session.run_client(SessionEvent::Incoming { item: None, now: 1 }),
        SessionAction::Deregister { peer: peer() }
    );
    assert_eq!(
        session.run_client(SessionEvent::Deregistered(Ok(()))),
        SessionAction::Finish(Ok(()))
    );
    assert_eq!(
        session.run_client(SessionEvent::Deregistered(Err("closed".to_string()))),
        SessionAction::Finish(Err(Error::Mpsc("closed".to_string())))
    );
}

#[test]
fn a_client_that_fails_just_ends() {
    let mut session = ClientSession::new(peer());
    assert_eq!(
        session.run_client(SessionEvent::Incoming { item: Some(Err("reset".to_string())), now: 1 }),
        SessionAction::Finish(Ok(()))
    );
}

#[test]
fn nobody_is_pinged_or_given_up() {
    let mut session = ClientSession::new(peer());
    for now in [0, 20_000_000_000, u64::MAX] {
        assert_eq!(
            session.run_client(SessionEvent::Idle { now }),
            SessionAction::Select { wait: WAIT }
        );
        let pong = Message::Pong(vec![0; 8]);
        assert_eq!(
            session.run_client(SessionEvent::Incoming { item: Some(Ok(pong)), now: 1 }),
            SessionAction::Select { wait: WAIT }
        );
    }
    assert_ne!(session, ClientSession::new(peer()));
}

#[test]
fn an_idle_client_is_pinged_until_it_expires() {
    assert_eq!(idle_check(None, None, 99_000_000_000), IdleCheck::Wait);
    assert_eq!(idle_check(None, Some(0), 99_000_000_000), IdleCheck::Wait);
    assert_eq!(idle_check(Some(0), Some(1), 15_000_000_001), IdleCheck::Ping);
    assert_eq!(idle_check(Some(0), Some(1), 15_000_000_002), IdleCheck::Expired);
    assert_eq!(idle_check(Some(0), Some(50), 20), IdleCheck::Ping);
    assert_eq!(idle_check(Some(0), None, 0), IdleCheck::Expired);
}

#[test]
fn a_publisher_is_relayed_until_it_is_done() {
    assert_eq!(run_publisher(PublisherEvent::Start), PublisherAction::Receive);
    assert_eq!(
        run_publisher(PublisherEvent::Incoming(Some(Ok(text("a"))))),
        PublisherAction::Relay(text("a"))
    );
    assert_eq!(run_publisher(PublisherEvent::Relayed(Ok(()))), PublisherAction::Receive);
    assert_eq!(
        run_publisher(PublisherEvent::Incoming(None)),
        PublisherAction::Finish(Ok(()))
    );
}

#[test]
fn a_publisher_can_fail() {
    assert_eq!(
        run_publisher(PublisherEvent::Incoming(Some(Err("reset".to_string())))),
        PublisherAction::Finish(Err(Error::Tunstenite("reset".to_string())))
    );
    assert_eq!(
        run_publisher(PublisherEvent::Relayed(Err("closed".to_string()))),
        PublisherAction::Finish(Err(Error::Mpsc("closed".to_string())))
    );
}

#[test]
fn chatter_changes_nothing_but_the_waiting() {
    let chatter = || SessionEvent::Incoming { item: Some(Ok(Message::Pong(vec![1]))), now: 3 };
    let events = || {
        vec![
            SessionEvent::Start,
            SessionEvent::Registered(Ok(())),
            SessionEvent::Published(Some(text("a"))),
            SessionEvent::Forwarded(Ok(())),
            SessionEvent::Idle { now: 99_000_000_000 },
            SessionEvent::Incoming { item: None, now: 100_000_000_000 },
            SessionEvent::Deregistered(Ok(())),
        ]
    };
    let deeds = |talkative: bool| {
        let mut session = ClientSession::new(peer());
        let mut deeds = Vec::new();
        for event in events() {
            deeds.push(session.run_client(event));
            if talkative {
                deeds.push(session.run_client(chatter()));
            }
        }
        deeds.retain(|action| !matches!(action, SessionAction::Select { .. }));
        deeds
    };
    assert_eq!(deeds(false), deeds(true));
    assert_eq!(deeds(false).len(), 4);
}

#[test]
fn a_client_joins_first_and_leaves_last() {
    let mut session = ClientSession::new(peer());
    let mut deeds = Vec::new();
    for event in [
        SessionEvent::Start,
        SessionEvent::Registered(Ok(())),
        SessionEvent::Idle { now: 1 },
        SessionEvent::Published(Some(text("a"))),
        SessionEvent::Forwarded(Ok(())),
        SessionEvent::Incoming { item: None, now: 2 },
        SessionEvent::Deregistered(Ok(())),
    ] {
        deeds.push(session.run_client(event));
    }
    let last = deeds.len() - 1;
    for (i, deed) in deeds.iter().enumerate() {
        assert_eq!(matches!(deed, SessionAction::Register { .. }), i == 0);
        assert_eq!(matches!(deed, SessionAction::Deregister { .. }), i == last - 1);
        assert_eq!(matches!(deed, SessionAction::Finish(_)), i == last);
    }
}
