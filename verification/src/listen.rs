//! Which address the server listens at.
use crate::addr::{with_port, IpAddr, Ipv4Addr, SocketAddr};
use crate::parse::{
    characters, ip_addr, port, read_ip_addr, read_port, read_socket_addr, socket_addr,
};
use vstd::prelude::*;

verus! {

/// The port to listen at where none is given.
pub const DEFAULT_LISTEN_PORT: u16 = 7368;

/// The address to listen at where none is given: any that the machine has.
pub open spec fn default_listen_addr() -> IpAddr {
    IpAddr::V4(Ipv4Addr { a: 0, b: 0, c: 0, d: 0 })
}

/// Why there is nowhere to listen.
#[derive(Clone, Copy, Debug, PartialEq, Eq, Structural)]
pub enum ListenError {
    /// What was asked for is no address and no port.
    Unparsable,
}

/// The address that a text asks for: an address with its port, an address at the default port,
/// or a port at the default address, whichever it can be read as first. Without a text both are
/// the defaults.
pub open spec fn listen_sockaddr(arg: Option<Seq<char>>) -> Result<SocketAddr, ListenError> {
    let any = default_listen_addr();
    match arg {
        None => Ok(with_port(any, DEFAULT_LISTEN_PORT)),
        Some(text) => match (socket_addr(text), ip_addr(text), port(text)) {
            (Some(addr), _, _) => Ok(addr),
            (None, Some(ip), _) => Ok(with_port(ip, DEFAULT_LISTEN_PORT)),
            (None, None, Some(port)) => Ok(with_port(any, port)),
            (None, None, None) => Err(ListenError::Unparsable),
        },
    }
}

/// Decides where to listen.
pub fn get_listen_sockaddr(arg: Option<&str>) -> (addr: Result<SocketAddr, ListenError>)
    ensures
        addr == listen_sockaddr(
            match arg {
                Some(text) => Some(text@),
                None => None,
            },
        ),
{
    let any = IpAddr::V4(Ipv4Addr { a: 0, b: 0, c: 0, d: 0 });
    let text = match arg {
        Some(text) => characters(text),
        None => return Ok(SocketAddr::new(any, DEFAULT_LISTEN_PORT)),
    };
    match read_socket_addr(text.as_slice()) {
        Some(addr) => Ok(addr),
        None => match read_ip_addr(text.as_slice()) {
            Some(ip) => Ok(SocketAddr::new(ip, DEFAULT_LISTEN_PORT)),
            None => match read_port(text.as_slice()) {
                Some(port) => Ok(SocketAddr::new(any, port)),
                None => Err(ListenError::Unparsable),
            },
        },
    }
}

impl ListenError {
    /// What is wrong, in words.
    pub fn description(&self) -> (text: String)
        ensures
            text@ == "unable to parse listen-addr"@,
    {
        String::from_str("unable to parse listen-addr")
    }
}

} // verus!
