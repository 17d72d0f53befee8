//! Shared types.
use crate::text::{all_digits, bytes_of, decimal_value, is_ascii_seq, split};
use vstd::prelude::*;
use vstd::string::*;

verus! {

broadcast use vstd::string::group_string_axioms;

/// The WiFi mode.
#[derive(Debug, Clone, Copy, PartialEq, Eq, Structural)]
pub enum WifiMode {
    /// Station mode (client)
    Station,
    /// Access point mode (server)
    Ap,
    /// Both station and AP mode
    Both,
}

impl WifiMode {
    /// The digit that stands for the mode on the wire.
    pub open spec fn code(self) -> u8 {
        match self {
            WifiMode::Station => 49,
            WifiMode::Ap => 50,
            WifiMode::Both => 51,
        }
    }

    pub fn as_at_str(&self) -> (r: &'static str)
        ensures
            bytes_of(r) == seq![self.code()],
    {
        match self {
            WifiMode::Station => {
                proof {
                    reveal_strlit("1");
                    assert(is_ascii("1"));
                }
                "1"
            },
            WifiMode::Ap => {
                proof {
                    reveal_strlit("2");
                    assert(is_ascii("2"));
                }
                "2"
            },
            WifiMode::Both => {
                proof {
                    reveal_strlit("3");
                    assert(is_ascii("3"));
                }
                "3"
            },
        }
    }
}

/// Wraps both the current configuration and the default configuration.
pub struct ConfigWithDefault<T> {
    /// The current configuration.
    pub current: T,
    /// The default configuration, stored in flash memory.
    pub default: T,
}

/// The connection status.
#[derive(Debug, Clone, Copy, PartialEq, Eq, Structural)]
pub enum ConnectionStatus {
    /// The ESP8266 Station is connected to an AP and its IP is obtained
    ConnectedToAccessPoint,
    /// The ESP8266 Station has created a TCP or UDP transmission
    InTransmission,
    /// The TCP or UDP transmission of ESP8266 Station is disconnected
    TransmissionEnded,
    /// The ESP8266 Station does NOT connect to an AP
    Disconnected,
    /// Unknown status
    Other(u8),
}

/// The ESP8266 can manage up to five parallel connections with id 0..4.
#[derive(Debug, Clone, Copy, PartialEq, Eq, Structural)]
pub enum ConnectionId {
    Zero,
    One,
    Two,
    Three,
    Four,
}

impl ConnectionId {
    /// The digit that stands for the connection on the wire.
    pub open spec fn code(self) -> u8 {
        match self {
            ConnectionId::Zero => 48,
            ConnectionId::One => 49,
            ConnectionId::Two => 50,
            ConnectionId::Three => 51,
            ConnectionId::Four => 52,
        }
    }

    /// The connection whose digit is `b`, if any.
    pub open spec fn from_code(b: u8) -> Option<ConnectionId> {
        if b == 48 {
            Some(ConnectionId::Zero)
        } else if b == 49 {
            Some(ConnectionId::One)
        } else if b == 50 {
            Some(ConnectionId::Two)
        } else if b == 51 {
            Some(ConnectionId::Three)
        } else if b == 52 {
            Some(ConnectionId::Four)
        } else {
            None
        }
    }

    /// The connection that the digit `b` names, if it is one of `0` to `4`.
    pub fn from_digit(b: u8) -> (r: Option<ConnectionId>)
        ensures
            r == Self::from_code(b),
            r matches Some(id) ==> id.code() == b,
    {
        if b == 48 {
            Some(ConnectionId::Zero)
        } else if b == 49 {
            Some(ConnectionId::One)
        } else if b == 50 {
            Some(ConnectionId::Two)
        } else if b == 51 {
            Some(ConnectionId::Three)
        } else if b == 52 {
            Some(ConnectionId::Four)
        } else {
            None
        }
    }

    pub fn as_at_str(&self) -> (r: &'static str)
        ensures
            bytes_of(r) == seq![self.code()],
    {
        match self {
            ConnectionId::Zero => {
                proof {
                    reveal_strlit("0");
                    assert(is_ascii("0"));
                }
                "0"
            },
            ConnectionId::One => {
                proof {
                    reveal_strlit("1");
                    assert(is_ascii("1"));
                }
                "1"
            },
            ConnectionId::Two => {
                proof {
                    reveal_strlit("2");
                    assert(is_ascii("2"));
                }
                "2"
            },
            ConnectionId::Three => {
                proof {
                    reveal_strlit("3");
                    assert(is_ascii("3"));
                }
                "3"
            },
            ConnectionId::Four => {
                proof {
                    reveal_strlit("4");
                    assert(is_ascii("4"));
                }
                "4"
            },
        }
    }
}

/// The ESP8266 can either run in single-connection mode (`NonMultiplexed`) or
/// in multi-connection mode (`Multiplexed`).
#[derive(Debug, Clone, Copy, PartialEq, Eq, Structural)]
pub enum MultiplexingType {
    NonMultiplexed,
    Multiplexed(ConnectionId),
}

/// The connection protocol.
#[derive(Debug, Clone, Copy, PartialEq, Eq, Structural)]
pub enum Protocol {
    Tcp,
    Udp,
}

impl Protocol {
    /// The protocol's name on the wire.
    pub open spec fn name(self) -> Seq<u8> {
        match self {
            Protocol::Tcp => seq![84u8, 67u8, 80u8],
            Protocol::Udp => seq![85u8, 68u8, 80u8],
        }
    }

    pub fn as_at_str(&self) -> (r: &'static str)
        ensures
            bytes_of(r) == self.name(),
    {
        match self {
            Protocol::Tcp => {
                proof {
                    reveal_strlit("TCP");
                    assert(is_ascii("TCP"));
                    assert(bytes_of("TCP") =~= seq![84u8, 67u8, 80u8]);
                }
                "TCP"
            },
            Protocol::Udp => {
                proof {
                    reveal_strlit("UDP");
                    assert(is_ascii("UDP"));
                    assert(bytes_of("UDP") =~= seq![85u8, 68u8, 80u8]);
                }
                "UDP"
            },
        }
    }
}

/// An IPv4 address, as its four octets in order.
#[derive(Debug, Clone, Copy, PartialEq, Eq, Structural)]
pub struct Ipv4Address(pub u8, pub u8, pub u8, pub u8);

/// One group of a dotted-quad address: one to three decimal digits, below 256.
pub open spec fn octet_of(f: Seq<u8>) -> Option<u8> {
    if 1 <= f.len() <= 3 && all_digits(f) && decimal_value(f) < 256 {
        Some(decimal_value(f) as u8)
    } else {
        None
    }
}

/// The address that dotted-quad text (`"10.0.99.164"`) names, if it is one.
pub open spec fn ipv4_of(s: Seq<u8>) -> Option<Ipv4Address> {
    let parts = split(s, 46);
    if parts.len() == 4 && octet_of(parts[0]) is Some && octet_of(parts[1]) is Some && octet_of(
        parts[2],
    ) is Some && octet_of(parts[3]) is Some {
        Some(
            Ipv4Address(
                octet_of(parts[0])->0,
                octet_of(parts[1])->0,
                octet_of(parts[2])->0,
                octet_of(parts[3])->0,
            ),
        )
    } else {
        None
    }
}

/// Relies on no_std_net's `FromStr for Ipv4Addr`: on ASCII text it accepts
/// exactly four groups separated by `.`, each of one to three decimal digits
/// with a value below 256, and nothing else.
#[verifier::external_body]
pub(crate) fn parse_ipv4(t: &str) -> (r: Option<Ipv4Address>)
    requires
        is_ascii_seq(bytes_of(t)),
    ensures
        r == ipv4_of(bytes_of(t)),
{
    match <no_std_net::Ipv4Addr as core::str::FromStr>::from_str(t) {
        Ok(a) => {
            let o = a.octets();
            Some(Ipv4Address(o[0], o[1], o[2], o[3]))
        },
        Err(_) => None,
    }
}

/// An IPv4 address and a port.
#[derive(Debug, Clone, Copy, PartialEq, Eq, Structural)]
pub struct SocketAddress {
    pub ip: Ipv4Address,
    pub port: u16,
}

} // verus!
