use espresso::commands::requests::EstablishConnection;
use espresso::commands::responses::JoinResponse;
use espresso::link::LinkState;
use espresso::types::{ConnectionStatus, Ipv4Address, MultiplexingType, Protocol, SocketAddress};

fn addr() -> SocketAddress {
    SocketAddress { ip: Ipv4Address(10, 0, 0, 1), port: 80 }
}

#[test]
fn open_refused_before_join() {
    let s = LinkState::Unjoined;
    assert_eq!(s.open(MultiplexingType::NonMultiplexed, Protocol::Tcp, addr()), None);
}

#[test]
fn open_allowed_after_successful_join() {
    let s = LinkState::Unjoined.after_join(JoinResponse { connected: true, got_ip: true });
    assert_eq!(s, LinkState::Joined);
    assert_eq!(
        s.open(MultiplexingType::NonMultiplexed, Protocol::Tcp, addr()),
        Some(EstablishConnection::tcp(MultiplexingType::NonMultiplexed, addr()))
    );
}

#[test]
fn join_without_address_does_not_count() {
    let s = LinkState::Joined.after_join(JoinResponse { connected: true, got_ip: false });
    assert_eq!(s, LinkState::Unjoined);
}

#[test]
fn status_reports_move_the_link() {
    let s = LinkState::Joined.after_status(ConnectionStatus::Disconnected);
    assert_eq!(s, LinkState::Unjoined);
    let s = s.after_status(ConnectionStatus::ConnectedToAccessPoint);
    assert_eq!(s, LinkState::Joined);
    assert_eq!(s.after_status(ConnectionStatus::Other(9)), LinkState::Joined);
    assert_eq!(LinkState::Unjoined.after_status(ConnectionStatus::TransmissionEnded), LinkState::Joined);
}
