use repeater::addr::{Ipv4Addr, Ipv6Addr, SocketAddr, SocketAddrV4, SocketAddrV6};
use repeater::error::Error;
use repeater::server::{AcceptAction, AcceptEvent, Role, RunAction, RunEvent, Server};

const PUBLISH: u128 = 0x936DA01F9ABD4D9D80C702AF85C822A8;
const CLIENT: u128 = 0x00000000000040008000000000000001;

fn addr() -> SocketAddr {
    SocketAddr::V4(SocketAddrV4 { ip: Ipv4Addr { a: 192, b: 168, c: 0, d: 10 }, port: 7368 })
}

fn server() -> Server<u8> {
    Server::with_ids(&addr(), PUBLISH, CLIENT)
}

fn path_of(uri: &str) -> String {
    uri.parse::<http::Uri>().unwrap().path().to_string()
}

#[test]
fn uris_are_written_out() {
    let server = server();
    assert!(server.has_uri());
    assert_eq!(
        server.publish_uri(),
        "ws://192.168.0.10:7368/936da01f-9abd-4d9d-80c7-02af85c822a8"
    );
    assert_eq!(
        server.client_uri(),
        "ws://192.168.0.10:7368/00000000-0000-4000-8000-000000000001"
    );
}

#[test]
fn the_announcement_names_both_uris() {
    let (publish, client) = server().announcement();
    assert_eq!(
        publish,
        "Publishing path: ws://192.168.0.10:7368/936da01f-9abd-4d9d-80c7-02af85c822a8"
    );
    assert_eq!(
        client,
        "    Client path: ws://192.168.0.10:7368/00000000-0000-4000-8000-000000000001"
    );
}

#[test]
fn an_ipv6_server_has_no_uri() {
    let ip = Ipv6Addr { bits: 1 };
    let addr = SocketAddr::V6(SocketAddrV6 { ip, port: 80, flowinfo: 0, scope_id: 0 });
    assert!(!Server::<u8>::with_ids(&addr, 1, 2).has_uri());
}

#[test]
fn fresh_servers_have_different_random_ids() {
    let a = Server::<u8>::new(&addr());
    let b = Server::<u8>::new(&addr());
    assert_ne!(a.publish_uri(), a.client_uri());
    assert_ne!(a.publish_uri(), b.publish_uri());
    let id = uuid::Uuid::parse_str(&path_of(&a.publish_uri())[1..]).unwrap();
    assert_eq!(id.get_version_num(), 4);
    assert_eq!(id.get_variant(), Some(uuid::Variant::RFC4122));
}

#[test]
fn uris_lead_to_their_roles() {
    for server in [server(), Server::<u8>::clone(&Server::new(&addr()))] {
        assert_eq!(server.role(&path_of(&server.publish_uri())), Some(Role::Publisher));
        assert_eq!(server.role(&path_of(&server.client_uri())), Some(Role::Client));
    }
}

#[test]
fn other_paths_lead_nowhere() {
    let server = server();
    assert_eq!(server.role(""), None);
    assert_eq!(server.role("/"), None);
    assert_eq!(server.role("936da01f-9abd-4d9d-80c7-02af85c822a8"), None);
    assert_eq!(server.role("/936DA01F-9ABD-4D9D-80C7-02AF85C822A8"), None);
    assert_eq!(server.role("/936da01f-9abd-4d9d-80c7-02af85c822a8/"), None);
    assert_eq!(server.role("//936da01f-9abd-4d9d-80c7-02af85c822a8"), None);
    assert_eq!(server.role("\u{e9}936da01f-9abd-4d9d-80c7-02af85c822a8"), None);
    assert_eq!(server.role("/936da01f9abd4d9d80c702af85c822a8"), None);
}

#[test]
fn with_equal_ids_everybody_publishes() {
    let server = Server::<u8>::with_ids(&addr(), PUBLISH, PUBLISH);
    assert_eq!(server.role(&path_of(&server.client_uri())), Some(Role::Publisher));
}

/// A server whose broker has been started.
fn running() -> Server<u8> {
    let mut server = server();
    assert_eq!(server.run(RunEvent::BrokerStarted(7)), RunAction::Accept);
    server
}

#[test]
fn a_server_listens_then_accepts() {
    let mut server = server();
    assert_eq!(server.run(RunEvent::Start), RunAction::Bind(addr()));
    assert_eq!(server.run(RunEvent::Bound(Ok(()))), RunAction::StartBroker { capacity: 10240 });
    assert_eq!(server.run(RunEvent::BrokerStarted(7)), RunAction::Accept);
    for _ in 0..3 {
        assert_eq!(server.run(RunEvent::Accepted(Ok(()))), RunAction::Spawn(running()));
        assert_eq!(server.run(RunEvent::Spawned), RunAction::Accept);
    }
}

#[test]
fn one_broker_serves_everybody() {
    let mut server = running();
    for (path, role) in [
        ("/936da01f-9abd-4d9d-80c7-02af85c822a8", Role::Publisher),
        ("/00000000-0000-4000-8000-000000000001", Role::Client),
    ] {
        let copy = match server.run(RunEvent::Accepted(Ok(()))) {
            RunAction::Spawn(copy) => copy,
            other => panic!("{:?}", other),
        };
        assert_eq!(copy.publish_uri(), server.publish_uri());
        assert_eq!(copy.client_uri(), server.client_uri());
        let path = Ok(Some(path.to_string()));
        assert_eq!(
            copy.accept_connection(AcceptEvent::Negotiated { peer: addr(), path }),
            AcceptAction::Serve { role, peer: addr(), broker: Some(7) }
        );
    }
}

#[test]
fn only_listening_can_fail() {
    let mut server = server();
    let text = "in use".to_string();
    assert_eq!(
        server.run(RunEvent::Bound(Err(text.clone()))),
        RunAction::Finish(Err(Error::Io(text.clone())))
    );
    assert_eq!(server.run(RunEvent::Accepted(Err(text))), RunAction::Finish(Ok(())));
}

#[test]
fn connections_are_sorted() {
    let server = server();
    let negotiated = |peer: SocketAddr, path: Option<&str>| {
        let path = Ok(path.map(|p| p.to_string()));
        server.accept_connection(AcceptEvent::Negotiated { peer, path })
    };
    let other = SocketAddr::V4(SocketAddrV4 { ip: Ipv4Addr { a: 10, b: 1, c: 2, d: 3 }, port: 9 });
    for peer in [addr(), other] {
        assert_eq!(
            server.accept_connection(AcceptEvent::Opened(Ok(peer))),
            AcceptAction::Negotiate { peer }
        );
        assert_eq!(
            negotiated(peer, Some("/936da01f-9abd-4d9d-80c7-02af85c822a8")),
            AcceptAction::Serve { role: Role::Publisher, peer, broker: None }
        );
        assert_eq!(
            negotiated(peer, Some("/00000000-0000-4000-8000-000000000001")),
            AcceptAction::Serve { role: Role::Client, peer, broker: None }
        );
        assert_eq!(negotiated(peer, Some("/guess")), AcceptAction::Finish(Ok(())));
        assert_eq!(negotiated(peer, None), AcceptAction::Finish(Ok(())));
    }
}

#[test]
fn connections_can_fail() {
    let server = server();
    let gone = server.accept_connection(AcceptEvent::Opened(Err("gone".to_string())));
    assert_eq!(gone, AcceptAction::Finish(Err(Error::Io("gone".to_string()))));
    let path = Err("odd".to_string());
    let odd = server.accept_connection(AcceptEvent::Negotiated { peer: addr(), path });
    assert_eq!(odd, AcceptAction::Finish(Err(Error::NewConnection("odd".to_string()))));
}

#[test]
fn errors_speak() {
    assert_eq!(Error::Io("a".to_string()).to_text(), "a");
    assert_eq!(Error::Tunstenite("b".to_string()).to_text(), "b");
    assert_eq!(Error::Mpsc("c".to_string()).to_text(), "c");
    assert_eq!(Error::NewConnection("d".to_string()).to_text(), "new connection failed: ");
}
