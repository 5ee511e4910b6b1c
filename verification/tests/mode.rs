use repeater::addr::{Ipv4Addr, SocketAddr, SocketAddrV4};
use repeater::listen::ListenError;
use repeater::mode::{asciinema_mode, attend, plan, Arg, AsciinemaMode, Input, Options, Output, Plan};

fn options() -> Options {
    Options {
        server: false,
        listen_addr: None,
        asciinema_client: false,
        asciinema_publish: false,
        url: Some("ws://a/".to_string()),
    }
}

#[test]
fn publishing_goes_before_playing() {
    assert_eq!(asciinema_mode(true, true), AsciinemaMode::Publisher);
    assert_eq!(asciinema_mode(true, false), AsciinemaMode::Publisher);
    assert_eq!(asciinema_mode(false, true), AsciinemaMode::Client);
    assert_eq!(asciinema_mode(false, false), AsciinemaMode::Off);
}

#[test]
fn a_server_goes_before_everything() {
    let all = Options { server: true, asciinema_publish: true, ..options() };
    let ip = Ipv4Addr { a: 0, b: 0, c: 0, d: 0 };
    match plan(all) {
        Plan::Serve(Ok(SocketAddr::V4(addr))) => assert_eq!(addr, SocketAddrV4 { ip, port: 7368 }),
        other => panic!("{:?}", other),
    }
    let odd = Options { server: true, listen_addr: Some("x".to_string()), ..options() };
    assert!(matches!(plan(odd), Plan::Serve(Err(ListenError::Unparsable))));
}

#[test]
fn a_plain_client_uses_the_terminal() {
    match plan(options()) {
        Plan::Attend(attendance) => {
            assert!(attendance.recorder.is_none());
            assert_eq!(attendance.input, Input::Stdin);
            assert_eq!(attendance.output, Output::Stdout);
            assert_eq!(attendance.url, Some("ws://a/".to_string()));
        }
        other => panic!("{:?}", other),
    }
}

#[test]
fn a_publisher_reads_the_pipe() {
    let attendance = attend(AsciinemaMode::Publisher, None);
    let recorder = attendance.recorder.unwrap();
    assert_eq!(recorder.fifo, ".fifo-publisher");
    assert_eq!(recorder.args, vec![Arg::Word("rec"), Arg::Fifo]);
    assert_eq!(attendance.input, Input::Fifo);
    assert_eq!(attendance.output, Output::Stdout);
    assert_eq!(attendance.url, None);
}

#[test]
fn a_player_writes_the_pipe() {
    let attendance = attend(AsciinemaMode::Client, None);
    let recorder = attendance.recorder.unwrap();
    assert_eq!(recorder.fifo, ".fifo-client");
    assert_eq!(
        recorder.args,
        vec![Arg::Word("play"), Arg::Fifo, Arg::Word("-i"), Arg::Word("0.001")]
    );
    assert_eq!(attendance.input, Input::Stdin);
    assert_eq!(attendance.output, Output::Fifo);
}
