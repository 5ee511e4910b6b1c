use repeater::client::{
    dial, new_connect, read_url, ConnectAction, ConnectEvent, Failure, UrlError,
};
use repeater::message::Message;
use repeater::pipe::{connect, read_stdin, PipeAction, PipeEvent, StdinAction};

fn text(s: &str) -> Message {
    Message::Text(s.to_string())
}

#[test]
fn urls_are_read() {
    assert_eq!(read_url("ws://Example.COM:80").unwrap(), "ws://example.com/");
    assert_eq!(read_url(" ws://10.0.0.1:7368/x ").unwrap(), "ws://10.0.0.1:7368/x");
    assert_eq!(read_url("example").unwrap_err().cause, url::ParseError::RelativeUrlWithoutBase);
    assert_eq!(read_url("ws://h:99999").unwrap_err().cause, url::ParseError::InvalidPort);
}

#[test]
fn a_connection_starts_with_its_url() {
    match new_connect(ConnectEvent::Start { url: "ws://Example.COM:80".to_string() }) {
        ConnectAction::Dial { url } => assert_eq!(url, "ws://example.com/"),
        other => panic!("{:?}", other),
    }
    match new_connect(ConnectEvent::Start { url: String::new() }) {
        ConnectAction::Abort(Failure::Url(UrlError { cause })) => {
            assert_eq!(cause, url::ParseError::RelativeUrlWithoutBase)
        }
        other => panic!("{:?}", other),
    }
}

#[test]
fn a_good_url_is_dialled() {
    assert!(matches!(dial(Ok("ws://a/".to_string())), ConnectAction::Dial { url } if url == "ws://a/"));
    let error = UrlError { cause: url::ParseError::EmptyHost };
    assert!(matches!(dial(Err(error)), ConnectAction::Abort(Failure::Url(_))));
}

#[test]
fn output_is_what_the_server_sent() {
    let mut written = Vec::new();
    for msg in [text("ab"), Message::Binary(vec![0xff]), Message::Close(None), text("c")] {
        match new_connect(ConnectEvent::Incoming(Some(Ok(msg)))) {
            ConnectAction::Write(data) => written.extend(data),
            other => panic!("{:?}", other),
        }
        assert!(matches!(
            new_connect(ConnectEvent::Written(Ok(()))),
            ConnectAction::Select { buf_len: 1024 }
        ));
    }
    assert_eq!(written, vec![b'a', b'b', 0xff, b'c']);
}

#[test]
fn input_goes_to_the_server() {
    let send = |nread: usize| {
        let mut buf = vec![0; 1024];
        buf[0] = 7;
        buf[1] = 8;
        new_connect(ConnectEvent::Local { buf, nread: Ok(nread) })
    };
    assert!(matches!(send(2), ConnectAction::Send(msg) if msg == Message::Binary(vec![7, 8])));
    assert!(matches!(send(0), ConnectAction::Send(msg) if msg == Message::Binary(vec![])));
    assert!(matches!(send(5000), ConnectAction::Send(Message::Binary(data)) if data.len() == 1024));
    assert!(matches!(new_connect(ConnectEvent::Sent(Ok(()))), ConnectAction::Select { buf_len: 1024 }));
}

#[test]
fn only_the_server_ends_a_connection() {
    let failed = ConnectEvent::Local { buf: vec![0; 1024], nread: Err("eof".to_string()) };
    assert!(matches!(new_connect(failed), ConnectAction::Select { buf_len: 1024 }));
    assert!(matches!(new_connect(ConnectEvent::Connected(Ok(()))), ConnectAction::Select { .. }));
    assert!(matches!(new_connect(ConnectEvent::Incoming(None)), ConnectAction::Finish));
    let broken = ConnectEvent::Incoming(Some(Err("reset".to_string())));
    assert!(matches!(new_connect(broken), ConnectAction::Linger { secs: 1 }));
    assert!(matches!(new_connect(ConnectEvent::Lingered), ConnectAction::Finish));
}

#[test]
fn what_cannot_be_passed_on_ends_the_program() {
    let text = || "broken".to_string();
    assert!(matches!(
        new_connect(ConnectEvent::Connected(Err(text()))),
        ConnectAction::Abort(Failure::Connect(e)) if e == "broken"
    ));
    assert!(matches!(
        new_connect(ConnectEvent::Written(Err(text()))),
        ConnectAction::Abort(Failure::Write(e)) if e == "broken"
    ));
    assert!(matches!(
        new_connect(ConnectEvent::Sent(Err(text()))),
        ConnectAction::Abort(Failure::Send(e)) if e == "broken"
    ));
    assert!(matches!(
        connect(PipeEvent::Connected(Err(text()))),
        PipeAction::Abort(Failure::Connect(e)) if e == "broken"
    ));
    assert!(matches!(
        connect(PipeEvent::Written(Err(text()))),
        PipeAction::Abort(Failure::Write(e)) if e == "broken"
    ));
}

#[test]
fn stdin_becomes_messages() {
    let buf = vec![1, 2, 3, 0];
    assert_eq!(
        read_stdin(buf.clone(), Ok(3)),
        StdinAction::Send(Message::Binary(vec![1, 2, 3]))
    );
    assert_eq!(read_stdin(buf.clone(), Ok(0)), StdinAction::Close(Message::Close(None)));
    assert_eq!(
        read_stdin(buf, Err("broken".to_string())),
        StdinAction::Close(Message::Close(None))
    );
}

#[test]
fn pipes_end_with_either_side() {
    let start = |url: &str| connect(PipeEvent::Start { url: url.to_string() });
    assert!(matches!(start("ws://A"), PipeAction::Dial { url } if url == "ws://a/"));
    assert!(matches!(start("A"), PipeAction::Abort(Failure::Url(_))));
    assert!(matches!(connect(PipeEvent::Connected(Ok(()))), PipeAction::Wait));
    let incoming = connect(PipeEvent::Incoming(Some(Ok(text("x")))));
    assert!(matches!(incoming, PipeAction::Write(data) if data == b"x".to_vec()));
    assert!(matches!(connect(PipeEvent::Written(Ok(()))), PipeAction::Wait));
    let broken = connect(PipeEvent::Incoming(Some(Err("reset".to_string()))));
    assert!(matches!(broken, PipeAction::Wait));
    assert!(matches!(connect(PipeEvent::Incoming(None)), PipeAction::Finish));
    assert!(matches!(connect(PipeEvent::OutgoingEnded), PipeAction::Finish));
}

#[test]
fn what_can_be_read_is_piped() {
    let mut piped = Vec::new();
    for item in [Ok(text("a")), Err("odd".to_string()), Ok(Message::Binary(vec![1, 2]))] {
        match connect(PipeEvent::Incoming(Some(item))) {
            PipeAction::Write(data) => piped.extend(data),
            other => assert!(matches!(other, PipeAction::Wait)),
        }
    }
    assert_eq!(piped, vec![b'a', 1, 2]);
}

#[test]
fn input_ends_with_one_close() {
    let mut sent = Vec::new();
    let mut reads = vec![(vec![1, 0], Ok(1)), (vec![2, 3], Ok(2)), (vec![0, 0], Ok(0))].into_iter();
    loop {
        let (buf, nread) = reads.next().unwrap();
        match read_stdin(buf, nread) {
            StdinAction::Send(msg) => sent.push(msg),
            StdinAction::Close(msg) => {
                sent.push(msg);
                break;
            }
        }
    }
    assert!(reads.next().is_none());
    let binary = |data: Vec<u8>| Message::Binary(data);
    assert_eq!(sent, vec![binary(vec![1]), binary(vec![2, 3]), Message::Close(None)]);
}
