//! Forwarding TCP ports.
use crate::config::PortForwardServer;
use crate::text::{decimal, decimal_text, decimals_read_back, numeral};
use vstd::prelude::*;

verus! {

/// The address with port `port` on `host`.
pub open spec fn socket_spec(host: Seq<char>, port: u16) -> Seq<char> {
    host + ":"@ + decimal(port as nat)
}

/// Writes the address with port `port` on `host`.
pub fn socket_text(host: &str, port: u16) -> (r: String)
    ensures
        r@ == socket_spec(host@, port),
{
    let mut s = host.to_owned();
    s.append(":");
    s.append(decimal_text(port as u64).as_str());
    s
}

/// The address to listen on: `port` on every interface.
pub fn listen_addr(port: u16) -> (r: String)
    ensures
        r@ == socket_spec("0.0.0.0"@, port),
{
    socket_text("0.0.0.0", port)
}

/// The address that connections are forwarded to.
pub fn target(server: &PortForwardServer) -> (r: String)
    ensures
        r@ == socket_spec(server.forward_address@, server.forward_port),
{
    socket_text(server.forward_address.as_str(), server.forward_port)
}

/// What came of waiting for a connection.
#[derive(Debug, Clone, Copy, PartialEq, Eq, Structural)]
pub enum Accepted {
    Connection,
    Failed,
}

/// What a forwarder does next; either way it goes on listening.
#[derive(Debug)]
pub enum ForwardAction {
    /// Forward the connection to this address.
    Forward(String),
    /// Report the failure.
    Report,
}

/// A connection is forwarded, a failure is reported; neither ends the forwarder.
pub fn on_accept(server: &PortForwardServer, accepted: Accepted) -> (r: ForwardAction)
    ensures
        match accepted {
            Accepted::Connection => r matches ForwardAction::Forward(to) && to@ == socket_spec(
                server.forward_address@,
                server.forward_port,
            ),
            Accepted::Failed => r is Report,
        },
{
    match accepted {
        Accepted::Connection => ForwardAction::Forward(target(server)),
        Accepted::Failed => ForwardAction::Report,
    }
}

/// An address is the host as it is, a colon, and the port in decimal, which reads back.
pub proof fn addresses_end_with_their_port(host: Seq<char>, port: u16)
    ensures
        socket_spec(host, port) == host + ":"@ + decimal(port as nat),
        socket_spec(host, port).take(host.len() as int) == host,
        numeral(socket_spec(host, port).skip(host.len() as int + 1), 10) == Some(port as nat),
{
    reveal_strlit(":");
    decimals_read_back(port as nat);
    assert(socket_spec(host, port).take(host.len() as int) =~= host);
    assert(socket_spec(host, port).skip(host.len() as int + 1) =~= decimal(port as nat));
}

} // verus!
