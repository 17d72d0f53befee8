//! How far the driver has brought the module towards an open socket. A
//! socket may only be opened once a join has succeeded: the open command is
//! handed out by the link state, and only in the joined state.
use crate::commands::requests::EstablishConnection;
use crate::commands::responses::JoinResponse;
use crate::types::{ConnectionStatus, MultiplexingType, Protocol, SocketAddress};
use vstd::prelude::*;

verus! {

#[derive(Debug, Clone, Copy, PartialEq, Eq, Structural)]
pub enum LinkState {
    /// No network joined, or the last join failed.
    Unjoined,
    /// A network joined and an address obtained: sockets may be opened.
    Joined,
}

impl LinkState {
    /// The state after the reply to a join: joined when the module reported
    /// both a connection and an address, whatever the state before.
    pub fn after_join(self, r: JoinResponse) -> (s: LinkState)
        ensures
            s == (if r.connected && r.got_ip {
                LinkState::Joined
            } else {
                LinkState::Unjoined
            }),
    {
        if r.connected && r.got_ip {
            LinkState::Joined
        } else {
            LinkState::Unjoined
        }
    }

    /// The state after a status report: the module says whether it is on a
    /// network; a code it does not know leaves the state as it was.
    pub fn after_status(self, st: ConnectionStatus) -> (s: LinkState)
        ensures
            s == match st {
                ConnectionStatus::ConnectedToAccessPoint
                | ConnectionStatus::InTransmission
                | ConnectionStatus::TransmissionEnded => LinkState::Joined,
                ConnectionStatus::Disconnected => LinkState::Unjoined,
                ConnectionStatus::Other(_) => self,
            },
    {
        match st {
            ConnectionStatus::ConnectedToAccessPoint
            | ConnectionStatus::InTransmission
            | ConnectionStatus::TransmissionEnded => LinkState::Joined,
            ConnectionStatus::Disconnected => LinkState::Unjoined,
            ConnectionStatus::Other(_) => self,
        }
    }

    /// The command that opens a connection, only once joined.
    pub fn open(self, mux: MultiplexingType, protocol: Protocol, remote_addr: SocketAddress) -> (r:
        Option<EstablishConnection>)
        ensures
            self == LinkState::Joined ==> r == Some(EstablishConnection { mux, protocol, remote_addr }),
            self == LinkState::Unjoined ==> r is None,
    {
        match self {
            LinkState::Joined => Some(EstablishConnection { mux, protocol, remote_addr }),
            LinkState::Unjoined => None,
        }
    }
}

} // verus!
