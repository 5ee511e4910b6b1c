//! What the program does, given its command line.
use crate::addr::SocketAddr;
use crate::listen::{get_listen_sockaddr, listen_sockaddr, ListenError};
use vstd::prelude::*;

verus! {

/// The command line.
#[derive(Debug)]
pub struct Options {
    /// Run a server.
    pub server: bool,
    /// Where to listen.
    pub listen_addr: Option<String>,
    /// Play what the server sends.
    pub asciinema_client: bool,
    /// Record, and send the recording to the server.
    pub asciinema_publish: bool,
    /// The server to connect to.
    pub url: Option<String>,
}

/// What asciinema is used for.
#[derive(Clone, Copy, Debug, PartialEq, Eq, Structural)]
pub enum AsciinemaMode {
    Off,
    Client,
    Publisher,
}

/// An argument of asciinema.
#[derive(Clone, Copy, Debug, PartialEq, Eq)]
pub enum Arg {
    Word(&'static str),
    /// The path of the named pipe.
    Fifo,
}

/// What the connection reads from.
#[derive(Clone, Copy, Debug, PartialEq, Eq, Structural)]
pub enum Input {
    Stdin,
    /// The named pipe, opened for reading.
    Fifo,
}

/// What the connection writes to.
#[derive(Clone, Copy, Debug, PartialEq, Eq, Structural)]
pub enum Output {
    Stdout,
    /// The named pipe, opened for writing.
    Fifo,
}

/// How asciinema is run.
#[derive(Debug)]
pub struct Recorder {
    /// The name of the pipe between asciinema and the connection.
    pub fifo: &'static str,
    pub args: Vec<Arg>,
}

/// What to set up, in this order: the pipe and asciinema, if they are needed; the two ends of
/// the connection; the connection, if there is a URL. At the end asciinema is waited for.
#[derive(Debug)]
pub struct Attendance {
    pub recorder: Option<Recorder>,
    pub input: Input,
    pub output: Output,
    pub url: Option<String>,
}

/// What the program does.
#[derive(Debug)]
pub enum Plan {
    /// Run a server at this address.
    Serve(Result<SocketAddr, ListenError>),
    /// Connect to a server.
    Attend(Attendance),
}

/// What asciinema is used for. To publish goes before to play.
pub open spec fn asciinema_mode_spec(publish: bool, client: bool) -> AsciinemaMode {
    if publish {
        AsciinemaMode::Publisher
    } else if client {
        AsciinemaMode::Client
    } else {
        AsciinemaMode::Off
    }
}

impl AsciinemaMode {
    /// The name of the pipe.
    pub open spec fn fifo(self) -> Option<&'static str> {
        match self {
            AsciinemaMode::Off => None,
            AsciinemaMode::Client => Some(".fifo-client"),
            AsciinemaMode::Publisher => Some(".fifo-publisher"),
        }
    }

    /// The arguments of asciinema: it records to the pipe, or plays from it with no pause
    /// longer than a millisecond.
    pub open spec fn args(self) -> Seq<Arg> {
        match self {
            AsciinemaMode::Off => Seq::empty(),
            AsciinemaMode::Client => seq![
                Arg::Word("play"),
                Arg::Fifo,
                Arg::Word("-i"),
                Arg::Word("0.001"),
            ],
            AsciinemaMode::Publisher => seq![Arg::Word("rec"), Arg::Fifo],
        }
    }

    /// What the connection reads from: the recording, or the terminal.
    pub open spec fn input(self) -> Input {
        if self is Publisher {
            Input::Fifo
        } else {
            Input::Stdin
        }
    }

    /// What the connection writes to: the player, or the terminal.
    pub open spec fn output(self) -> Output {
        if self is Client {
            Output::Fifo
        } else {
            Output::Stdout
        }
    }
}

impl Attendance {
    /// This is what `mode` takes.
    pub open spec fn suits(self, mode: AsciinemaMode) -> bool {
        &&& self.input == mode.input()
        &&& self.output == mode.output()
        &&& match self.recorder {
            None => mode is Off,
            Some(recorder) => mode.fifo() == Some(recorder.fifo) && recorder.args@ == mode.args(),
        }
    }
}

/// Decides what asciinema is used for.
pub fn asciinema_mode(publish: bool, client: bool) -> (mode: AsciinemaMode)
    ensures
        mode == asciinema_mode_spec(publish, client),
{
    if publish {
        AsciinemaMode::Publisher
    } else if client {
        AsciinemaMode::Client
    } else {
        AsciinemaMode::Off
    }
}

/// Decides how to connect to a server, or what to connect where there is none.
pub fn attend(mode: AsciinemaMode, url: Option<String>) -> (attendance: Attendance)
    ensures
        attendance.suits(mode),
        attendance.url == url,
        attendance.recorder is Some <==> !(mode is Off),
        attendance.input is Fifo <==> mode is Publisher,
        attendance.output is Fifo <==> mode is Client,
{
    match mode {
        AsciinemaMode::Publisher => Attendance {
            recorder: Some(
                Recorder { fifo: ".fifo-publisher", args: vec![Arg::Word("rec"), Arg::Fifo] },
            ),
            input: Input::Fifo,
            output: Output::Stdout,
            url,
        },
        AsciinemaMode::Client => Attendance {
            recorder: Some(
                Recorder {
                    fifo: ".fifo-client",
                    args: vec![Arg::Word("play"), Arg::Fifo, Arg::Word("-i"), Arg::Word("0.001")],
                },
            ),
            input: Input::Stdin,
            output: Output::Fifo,
            url,
        },
        AsciinemaMode::Off => Attendance {
            recorder: None,
            input: Input::Stdin,
            output: Output::Stdout,
            url,
        },
    }
}

/// Decides what to do.
pub fn plan(options: Options) -> (plan: Plan)
    ensures
        match plan {
            Plan::Serve(addr) => {
                &&& options.server
                &&& addr == listen_sockaddr(
                    match options.listen_addr {
                        Some(text) => Some(text@),
                        None => None,
                    },
                )
            },
            Plan::Attend(attendance) => {
                &&& !options.server
                &&& attendance.suits(
                    asciinema_mode_spec(options.asciinema_publish, options.asciinema_client),
                )
                &&& attendance.url == options.url
            },
        },
        plan is Serve <==> options.server,
        plan matches Plan::Attend(attendance) ==> {
            &&& attendance.recorder is Some <==> options.asciinema_publish
                || options.asciinema_client
            &&& attendance.input is Fifo <==> options.asciinema_publish
            &&& attendance.output is Fifo <==> options.asciinema_client
                && !options.asciinema_publish
        },
{
    if options.server {
        let addr = match &options.listen_addr {
            Some(text) => get_listen_sockaddr(Some(text.as_str())),
            None => get_listen_sockaddr(None),
        };
        Plan::Serve(addr)
    } else {
        let mode = asciinema_mode(options.asciinema_publish, options.asciinema_client);
        Plan::Attend(attend(mode, options.url))
    }
}

/// The connection never reads from the pipe that it writes to, and uses the pipe exactly where
/// asciinema is at its other end.
pub proof fn law_one_end_of_the_pipe_each(attendance: Attendance, mode: AsciinemaMode)
    requires
        attendance.suits(mode),
    ensures
        !(attendance.input is Fifo && attendance.output is Fifo),
        attendance.recorder is Some <==> attendance.input is Fifo || attendance.output is Fifo,
{
}

/// Whoever publishes has asciinema record to the pipe; the connection reads from the pipe and
/// writes to the terminal. That is so whatever the URL, and whether or not there is one.
pub proof fn law_publishing_records_to_the_pipe(attendance: Attendance, client: bool)
    requires
        attendance.suits(asciinema_mode_spec(true, client)),
    ensures
        attendance.input is Fifo,
        attendance.output is Stdout,
        attendance.recorder matches Some(recorder) && recorder.fifo == ".fifo-publisher"
            && recorder.args@.len() == 2 && recorder.args@[0] == Arg::Word("rec")
            && recorder.args@[1] is Fifo,
{
}

/// Whoever plays has asciinema play from the pipe; the connection writes to the pipe and reads
/// from the terminal. That is so whatever the URL, and whether or not there is one.
pub proof fn law_playing_plays_from_the_pipe(attendance: Attendance)
    requires
        attendance.suits(asciinema_mode_spec(false, true)),
    ensures
        attendance.input is Stdin,
        attendance.output is Fifo,
        attendance.recorder matches Some(recorder) && recorder.fifo == ".fifo-client"
            && recorder.args@.len() == 4 && recorder.args@[0] == Arg::Word("play")
            && recorder.args@[1] is Fifo && recorder.args@[2] == Arg::Word("-i")
            && recorder.args@[3] == Arg::Word("0.001"),
{
}

/// Whoever does neither has the connection between both sides of the terminal, and no asciinema.
pub proof fn law_a_plain_client_has_no_asciinema(attendance: Attendance)
    requires
        attendance.suits(asciinema_mode_spec(false, false)),
    ensures
        attendance.input is Stdin,
        attendance.output is Stdout,
        attendance.recorder is None,
{
}

/// What is set up depends on the mode alone: two that suit one mode differ in their URL at most.
/// And it tells the mode: none suits two.
pub proof fn law_the_mode_decides(
    left: Attendance,
    right: Attendance,
    mode: AsciinemaMode,
    other: AsciinemaMode,
)
    requires
        left.suits(mode),
        right.suits(other),
    ensures
        mode == other ==> {
            &&& left.input == right.input
            &&& left.output == right.output
            &&& left.recorder is Some <==> right.recorder is Some
            &&& left.recorder is Some ==> left.recorder->0.fifo == right.recorder->0.fifo
                && left.recorder->0.args@ == right.recorder->0.args@
        },
        mode != other ==> left.input != right.input || left.output != right.output,
{
}

/// To publish goes before to play, and without either asciinema is not used.
pub proof fn law_publishing_goes_first(publish: bool, client: bool)
    ensures
        asciinema_mode_spec(publish, client) is Publisher <==> publish,
        asciinema_mode_spec(publish, client) is Client <==> client && !publish,
        asciinema_mode_spec(publish, client) is Off <==> !client && !publish,
{
}

} // verus!
