//! Raw requests that can be sent from the driver to the ESP8266 device.
//!
//! Each command knows its exact bytes on the wire (`as_bytes`), the most
//! bytes those can take (`LEN`), and how the module's reply to it is read
//! (`parse`). A reply is handed over as the bytes of the response, or as
//! the transport's error in its place, which `parse` passes on unchanged.
use crate::commands::responses::{
    connection_status_from_resp, connection_status_of, empty_response_of, firmware_version_of,
    join_response_of, local_address_of, viewed, wifi_mode_from_resp, wifi_mode_of, EmptyResponse,
    FirmwareVersion, JoinResponse, LocalAddress,
};
use crate::error::{lift, lifted, Error, ErrorKind};
use crate::text::{
    bytes_of, decimal, is_blank, lemma_decimal_short, lemma_starts_with_letter, push_bytes, push_decimal, push_text,
    text_vec,
};
use crate::types::{
    ConnectionStatus, Ipv4Address, MultiplexingType, Protocol, SocketAddress, WifiMode,
};
use vstd::prelude::*;
use vstd::slice::slice_to_vec;
use vstd::string::*;
use vstd::utf8::valid_utf8;

verus! {

broadcast use vstd::string::group_string_axioms;

/// The outcome of a command whose reply must be empty.
pub open spec fn empty_outcome<E>(resp: Result<&[u8], E>) -> Result<EmptyResponse, Error<E>> {
    match resp {
        Ok(b) => lifted(empty_response_of(b@)),
        Err(e) => Err(Error::Transport(e)),
    }
}

fn parse_empty<E>(resp: Result<&[u8], E>) -> (r: Result<EmptyResponse, Error<E>>)
    ensures
        r == empty_outcome(resp),
{
    match resp {
        Ok(b) => lift(EmptyResponse::from_resp(b)),
        Err(e) => Err(Error::Transport(e)),
    }
}

/// The outcome of a command whose reply is not read.
pub open spec fn ignored_outcome<E>(resp: Result<&[u8], E>) -> Result<EmptyResponse, Error<E>> {
    match resp {
        Ok(_) => Ok(EmptyResponse),
        Err(e) => Err(Error::Transport(e)),
    }
}

fn parse_ignored<E>(resp: Result<&[u8], E>) -> (r: Result<EmptyResponse, Error<E>>)
    ensures
        r == ignored_outcome(resp),
{
    match resp {
        Ok(_) => Ok(EmptyResponse),
        Err(e) => Err(Error::Transport(e)),
    }
}

/// A command whose reply must be empty accepts an empty reply and refuses
/// any reply with more than white space in it; so it refuses the echo of
/// its own bytes (here for `At`, `Restart` and a `SetWifiMode`).
pub proof fn lemma_empty_reply<E>(b: &[u8], s: SetWifiMode)
    ensures
        b@.len() == 0 ==> empty_outcome::<E>(Ok(b)) == Ok::<EmptyResponse, Error<E>>(
            EmptyResponse,
        ),
        !is_blank(b@) ==> empty_outcome::<E>(Ok(b)) is Err,
        b@ == bytes_of("AT\r\n") || b@ == bytes_of("AT+RST\r\n") || b@ == s.wire()
            ==> empty_outcome::<E>(Ok(b)) is Err,
{
    reveal_strlit("AT\r\n");
    reveal_strlit("AT+RST\r\n");
    reveal_strlit("AT+CWMODE_");
    assert(is_ascii("AT\r\n"));
    assert(is_ascii("AT+RST\r\n"));
    assert(is_ascii("AT+CWMODE_"));
    if (b@ == bytes_of("AT\r\n") || b@ == bytes_of("AT+RST\r\n") || b@ == s.wire()) && valid_utf8(
        b@,
    ) {
        assert(b@[0] == 65);
        lemma_starts_with_letter(b@);
    }
}

/// An AT test command.
///
/// You will get an [`EmptyResponse`] if communication works correctly.
#[derive(Debug, Clone, Copy, PartialEq, Eq, Structural)]
pub struct At;

impl At {
    pub const LEN: usize = 4;

    pub fn as_bytes(&self) -> (r: Vec<u8>)
        ensures
            r@ == bytes_of("AT\r\n"),
            r@.len() <= Self::LEN,
    {
        proof {
            reveal_strlit("AT\r\n");
            assert(is_ascii("AT\r\n"));
        }
        text_vec("AT\r\n")
    }

    pub fn parse<E>(&self, resp: Result<&[u8], E>) -> (r: Result<EmptyResponse, Error<E>>)
        ensures
            r == empty_outcome(resp),
    {
        parse_empty(resp)
    }
}


/// Return information about the firmware version.
#[derive(Debug, Clone, Copy, PartialEq, Eq, Structural)]
pub struct GetFirmwareVersion;

impl GetFirmwareVersion {
    pub const LEN: usize = 8;

    pub fn as_bytes(&self) -> (r: Vec<u8>)
        ensures
            r@ == bytes_of("AT+GMR\r\n"),
            r@.len() <= Self::LEN,
    {
        proof {
            reveal_strlit("AT+GMR\r\n");
            assert(is_ascii("AT+GMR\r\n"));
        }
        text_vec("AT+GMR\r\n")
    }

    pub fn parse<E>(&self, resp: Result<&[u8], E>) -> (r: Result<FirmwareVersion, Error<E>>)
        ensures
            match resp {
                Ok(b) => viewed(r) == lifted::<_, E>(firmware_version_of(b@)),
                Err(e) => r == Err::<FirmwareVersion, Error<E>>(Error::Transport(e)),
            },
    {
        match resp {
            Ok(b) => lift(FirmwareVersion::from_resp(b)),
            Err(e) => Err(Error::Transport(e)),
        }
    }
}

/// Restart the module.
#[derive(Debug, Clone, Copy, PartialEq, Eq, Structural)]
pub struct Restart;

impl Restart {
    pub const LEN: usize = 8;

    pub fn as_bytes(&self) -> (r: Vec<u8>)
        ensures
            r@ == bytes_of("AT+RST\r\n"),
            r@.len() <= Self::LEN,
    {
        proof {
            reveal_strlit("AT+RST\r\n");
            assert(is_ascii("AT+RST\r\n"));
        }
        text_vec("AT+RST\r\n")
    }

    pub fn parse<E>(&self, resp: Result<&[u8], E>) -> (r: Result<EmptyResponse, Error<E>>)
        ensures
            r == empty_outcome(resp),
    {
        parse_empty(resp)
    }
}

/// The word that picks the current (`CUR`) or the stored (`DEF`) setting.
pub open spec fn scope_text(persist: bool) -> Seq<u8> {
    if persist {
        bytes_of("DEF")
    } else {
        bytes_of("CUR")
    }
}

fn push_scope(buf: &mut Vec<u8>, persist: bool)
    ensures
        final(buf)@ == old(buf)@ + scope_text(persist),
        scope_text(persist).len() == 3,
{
    proof {
        reveal_strlit("DEF");
        reveal_strlit("CUR");
        assert(is_ascii("DEF"));
        assert(is_ascii("CUR"));
    }
    if persist {
        push_text(buf, "DEF");
    } else {
        push_text(buf, "CUR");
    }
}

/// Query the current (`persisted == false`) or the stored WiFi mode.
#[derive(Debug, Clone, Copy, PartialEq, Eq, Structural)]
pub struct GetWifiMode {
    pub persisted: bool,
}

impl GetWifiMode {
    pub const LEN: usize = 16;

    pub open spec fn wire(self) -> Seq<u8> {
        bytes_of("AT+CWMODE_") + scope_text(self.persisted) + bytes_of("?\r\n")
    }

    pub fn as_bytes(&self) -> (r: Vec<u8>)
        ensures
            r@ == self.wire(),
            r@.len() <= Self::LEN,
    {
        proof {
            reveal_strlit("AT+CWMODE_");
            reveal_strlit("?\r\n");
            assert(is_ascii("AT+CWMODE_"));
            assert(is_ascii("?\r\n"));
        }
        let mut buf = text_vec("AT+CWMODE_");
        push_scope(&mut buf, self.persisted);
        push_text(&mut buf, "?\r\n");
        buf
    }

    pub fn parse<E>(&self, resp: Result<&[u8], E>) -> (r: Result<WifiMode, Error<E>>)
        ensures
            r == match resp {
                Ok(b) => lifted::<_, E>(wifi_mode_of(b@, self.persisted)),
                Err(e) => Err(Error::Transport(e)),
            },
    {
        match resp {
            Ok(b) => lift(wifi_mode_from_resp(b, self.persisted)),
            Err(e) => Err(Error::Transport(e)),
        }
    }
}

/// Query the current WiFi mode.
#[derive(Debug, Clone, Copy, PartialEq, Eq, Structural)]
pub struct GetCurrentWifiMode;

impl GetCurrentWifiMode {
    pub const LEN: usize = 16;

    pub fn as_bytes(&self) -> (r: Vec<u8>)
        ensures
            r@ == (GetWifiMode { persisted: false }).wire(),
            r@.len() <= Self::LEN,
    {
        (GetWifiMode { persisted: false }).as_bytes()
    }

    pub fn parse<E>(&self, resp: Result<&[u8], E>) -> (r: Result<WifiMode, Error<E>>)
        ensures
            r == match resp {
                Ok(b) => lifted::<_, E>(wifi_mode_of(b@, false)),
                Err(e) => Err(Error::Transport(e)),
            },
    {
        (GetWifiMode { persisted: false }).parse(resp)
    }
}

/// Query the default WiFi mode.
#[derive(Debug, Clone, Copy, PartialEq, Eq, Structural)]
pub struct GetDefaultWifiMode;

impl GetDefaultWifiMode {
    pub const LEN: usize = 16;

    pub fn as_bytes(&self) -> (r: Vec<u8>)
        ensures
            r@ == (GetWifiMode { persisted: true }).wire(),
            r@.len() <= Self::LEN,
    {
        (GetWifiMode { persisted: true }).as_bytes()
    }

    pub fn parse<E>(&self, resp: Result<&[u8], E>) -> (r: Result<WifiMode, Error<E>>)
        ensures
            r == match resp {
                Ok(b) => lifted::<_, E>(wifi_mode_of(b@, true)),
                Err(e) => Err(Error::Transport(e)),
            },
    {
        (GetWifiMode { persisted: true }).parse(resp)
    }
}

/// Set the WiFi mode.
///
/// If `persist` is set to `true`, then the configuration will be persisted
/// to flash.
#[derive(Debug, Clone, Copy, PartialEq, Eq, Structural)]
pub struct SetWifiMode {
    pub mode: WifiMode,
    pub persist: bool,
}

impl SetWifiMode {
    pub const LEN: usize = 17;

    pub fn to(mode: WifiMode, persist: bool) -> (r: SetWifiMode)
        ensures
            r == (SetWifiMode { mode, persist }),
    {
        SetWifiMode { mode, persist }
    }

    pub open spec fn wire(self) -> Seq<u8> {
        bytes_of("AT+CWMODE_") + scope_text(self.persist) + bytes_of("=") + seq![self.mode.code()]
            + bytes_of("\r\n")
    }

    pub fn as_bytes(&self) -> (r: Vec<u8>)
        ensures
            r@ == self.wire(),
            r@.len() <= Self::LEN,
    {
        proof {
            reveal_strlit("AT+CWMODE_");
            reveal_strlit("=");
            reveal_strlit("\r\n");
            assert(is_ascii("AT+CWMODE_"));
            assert(is_ascii("="));
            assert(is_ascii("\r\n"));
        }
        let mut buf = text_vec("AT+CWMODE_");
        push_scope(&mut buf, self.persist);
        push_text(&mut buf, "=");
        push_text(&mut buf, self.mode.as_at_str());
        push_text(&mut buf, "\r\n");
        buf
    }

    pub fn parse<E>(&self, resp: Result<&[u8], E>) -> (r: Result<EmptyResponse, Error<E>>)
        ensures
            r == empty_outcome(resp),
    {
        parse_empty(resp)
    }
}

/// Query available Access Points.
#[derive(Debug, Clone, Copy, PartialEq, Eq, Structural)]
pub struct ListAccessPoints;

impl ListAccessPoints {
    pub const LEN: usize = 10;

    /// Scanning for access points takes the module a while.
    pub const MAX_TIMEOUT_MS: u32 = 10_000;

    pub fn as_bytes(&self) -> (r: Vec<u8>)
        ensures
            r@ == bytes_of("AT+CWLAP\r\n"),
            r@.len() <= Self::LEN,
    {
        proof {
            reveal_strlit("AT+CWLAP\r\n");
            assert(is_ascii("AT+CWLAP\r\n"));
        }
        text_vec("AT+CWLAP\r\n")
    }

    /// The list itself is not read.
    pub fn parse<E>(&self, resp: Result<&[u8], E>) -> (r: Result<EmptyResponse, Error<E>>)
        ensures
            r == ignored_outcome(resp),
    {
        parse_ignored(resp)
    }
}

/// Query information about current connection.
#[derive(Debug, Clone, Copy, PartialEq, Eq, Structural)]
pub struct GetConnectionStatus;

impl GetConnectionStatus {
    pub const LEN: usize = 14;

    pub fn as_bytes(&self) -> (r: Vec<u8>)
        ensures
            r@ == bytes_of("AT+CIPSTATUS\r\n"),
            r@.len() <= Self::LEN,
    {
        proof {
            reveal_strlit("AT+CIPSTATUS\r\n");
            assert(is_ascii("AT+CIPSTATUS\r\n"));
        }
        text_vec("AT+CIPSTATUS\r\n")
    }

    pub fn parse<E>(&self, resp: Result<&[u8], E>) -> (r: Result<ConnectionStatus, Error<E>>)
        ensures
            r == match resp {
                Ok(b) => lifted::<_, E>(connection_status_of(b@)),
                Err(e) => Err(Error::Transport(e)),
            },
    {
        match resp {
            Ok(b) => lift(connection_status_from_resp(b)),
            Err(e) => Err(Error::Transport(e)),
        }
    }
}

/// Query the local IP and MAC addresses.
#[derive(Debug, Clone, Copy, PartialEq, Eq, Structural)]
pub struct GetLocalAddress;

impl GetLocalAddress {
    pub const LEN: usize = 10;

    pub fn as_bytes(&self) -> (r: Vec<u8>)
        ensures
            r@ == bytes_of("AT+CIFSR\r\n"),
            r@.len() <= Self::LEN,
    {
        proof {
            reveal_strlit("AT+CIFSR\r\n");
            assert(is_ascii("AT+CIFSR\r\n"));
        }
        text_vec("AT+CIFSR\r\n")
    }

    pub fn parse<E>(&self, resp: Result<&[u8], E>) -> (r: Result<LocalAddress, Error<E>>)
        ensures
            match resp {
                Ok(b) => viewed(r) == lifted::<_, E>(local_address_of(b@)),
                Err(e) => r == Err::<LocalAddress, Error<E>>(Error::Transport(e)),
            },
    {
        match resp {
            Ok(b) => lift(LocalAddress::from_resp(b)),
            Err(e) => Err(Error::Transport(e)),
        }
    }
}

/// Join an Access Point.
///
/// If `persist` is set to `true`, then the credentials will be persisted to
/// flash.
#[derive(Debug)]
pub struct JoinAccessPoint {
    ssid: Vec<u8>,
    psk: Vec<u8>,
    persist: bool,
}

impl JoinAccessPoint {
    pub const LEN: usize = 116;

    /// The most bytes of an SSID.
    pub const SSID_CAPACITY: usize = 32;

    /// The most bytes of a pre-shared key.
    pub const PSK_CAPACITY: usize = 64;

    /// The module may take many seconds to report a join: no command
    /// declares a longer bound.
    pub const MAX_TIMEOUT_MS: u32 = 30_000;

    #[verifier::type_invariant]
    spec fn fits(self) -> bool {
        self.ssid@.len() <= Self::SSID_CAPACITY && self.psk@.len() <= Self::PSK_CAPACITY
    }

    /// The bytes of the SSID.
    pub closed spec fn ssid(self) -> Seq<u8> {
        self.ssid@
    }

    /// The bytes of the pre-shared key.
    pub closed spec fn psk(self) -> Seq<u8> {
        self.psk@
    }

    pub closed spec fn persist(self) -> bool {
        self.persist
    }

    /// Credentials longer than their capacities are refused, never cut.
    pub fn new(ssid: &str, psk: &str, persist: bool) -> (r: Result<JoinAccessPoint, ErrorKind>)
        ensures
            bytes_of(ssid).len() <= Self::SSID_CAPACITY && bytes_of(psk).len()
                <= Self::PSK_CAPACITY ==> (r matches Ok(j) && j.ssid() == bytes_of(ssid) && j.psk()
                == bytes_of(psk) && j.persist() == persist),
            bytes_of(ssid).len() > Self::SSID_CAPACITY || bytes_of(psk).len() > Self::PSK_CAPACITY
                ==> r == Err::<JoinAccessPoint, ErrorKind>(ErrorKind::CapacityExceeded),
    {
        let s = ssid.as_bytes();
        let p = psk.as_bytes();
        if s.len() > Self::SSID_CAPACITY || p.len() > Self::PSK_CAPACITY {
            return Err(ErrorKind::CapacityExceeded);
        }
        Ok(JoinAccessPoint { ssid: slice_to_vec(s), psk: slice_to_vec(p), persist })
    }

    pub open spec fn wire(self) -> Seq<u8> {
        bytes_of("AT+CWJAP_") + scope_text(self.persist()) + bytes_of("=\"") + self.ssid()
            + bytes_of("\",\"") + self.psk() + bytes_of("\"\r\n")
    }

    pub fn as_bytes(&self) -> (r: Vec<u8>)
        ensures
            r@ == self.wire(),
            r@.len() <= Self::LEN,
    {
        proof {
            use_type_invariant(self);
            reveal_strlit("AT+CWJAP_");
            reveal_strlit("=\"");
            reveal_strlit("\",\"");
            reveal_strlit("\"\r\n");
            assert(is_ascii("AT+CWJAP_"));
            assert(is_ascii("=\""));
            assert(is_ascii("\",\""));
            assert(is_ascii("\"\r\n"));
        }
        let mut buf = text_vec("AT+CWJAP_");
        push_scope(&mut buf, self.persist);
        push_text(&mut buf, "=\"");
        push_bytes(&mut buf, self.ssid.as_slice());
        push_text(&mut buf, "\",\"");
        push_bytes(&mut buf, self.psk.as_slice());
        push_text(&mut buf, "\"\r\n");
        buf
    }

    pub fn parse<E>(&self, resp: Result<&[u8], E>) -> (r: Result<JoinResponse, Error<E>>)
        ensures
            r == match resp {
                Ok(b) => lifted::<_, E>(join_response_of(b@)),
                Err(e) => Err(Error::Transport(e)),
            },
    {
        match resp {
            Ok(b) => lift(JoinResponse::from_resp(b)),
            Err(e) => Err(Error::Transport(e)),
        }
    }
}

/// The link id and its comma that a multiplexed connection puts first.
pub open spec fn mux_field(m: MultiplexingType) -> Seq<u8> {
    match m {
        MultiplexingType::NonMultiplexed => Seq::empty(),
        MultiplexingType::Multiplexed(id) => seq![id.code(), 44u8],
    }
}

fn push_mux_field(buf: &mut Vec<u8>, m: MultiplexingType)
    ensures
        final(buf)@ == old(buf)@ + mux_field(m),
        mux_field(m).len() <= 2,
{
    match m {
        MultiplexingType::NonMultiplexed => {
            assert(old(buf)@ + mux_field(m) =~= old(buf)@);
        },
        MultiplexingType::Multiplexed(id) => {
            push_text(buf, id.as_at_str());
            buf.push(44);
            assert(final(buf)@ =~= old(buf)@ + mux_field(m));
        },
    }
}

/// An address in dotted-quad text.
pub open spec fn ip_text(a: Ipv4Address) -> Seq<u8> {
    decimal(a.0 as nat) + seq![46u8] + decimal(a.1 as nat) + seq![46u8] + decimal(a.2 as nat)
        + seq![46u8] + decimal(a.3 as nat)
}

fn push_ip(buf: &mut Vec<u8>, a: Ipv4Address)
    ensures
        final(buf)@ == old(buf)@ + ip_text(a),
        ip_text(a).len() <= 15,
{
    proof {
        lemma_decimal_short(a.0 as nat);
        lemma_decimal_short(a.1 as nat);
        lemma_decimal_short(a.2 as nat);
        lemma_decimal_short(a.3 as nat);
    }
    push_decimal(buf, a.0 as u16);
    buf.push(46);
    push_decimal(buf, a.1 as u16);
    buf.push(46);
    push_decimal(buf, a.2 as u16);
    buf.push(46);
    push_decimal(buf, a.3 as u16);
    assert(final(buf)@ =~= old(buf)@ + ip_text(a));
}

/// Establish TCP Connection, UDP Transmission or SSL Connection.
#[derive(Debug, Clone, Copy, PartialEq, Eq, Structural)]
pub struct EstablishConnection {
    pub mux: MultiplexingType,
    pub protocol: Protocol,
    pub remote_addr: SocketAddress,
}

impl EstablishConnection {
    /// Sized for a link id, the longest address and the longest port.
    pub const LEN: usize = 45;

    pub const MAX_TIMEOUT_MS: u32 = 30_000;

    pub fn tcp(mux: MultiplexingType, remote_addr: SocketAddress) -> (r: EstablishConnection)
        ensures
            r == (EstablishConnection { mux, protocol: Protocol::Tcp, remote_addr }),
    {
        EstablishConnection { mux, protocol: Protocol::Tcp, remote_addr }
    }

    pub fn udp(mux: MultiplexingType, remote_addr: SocketAddress) -> (r: EstablishConnection)
        ensures
            r == (EstablishConnection { mux, protocol: Protocol::Udp, remote_addr }),
    {
        EstablishConnection { mux, protocol: Protocol::Udp, remote_addr }
    }

    /// `AT+CIPSTART=[<id>,]"<type>","<ip>",<port>`
    pub open spec fn wire(self) -> Seq<u8> {
        bytes_of("AT+CIPSTART=") + mux_field(self.mux) + bytes_of("\"") + self.protocol.name()
            + bytes_of("\",\"") + ip_text(self.remote_addr.ip) + bytes_of("\",") + decimal(
            self.remote_addr.port as nat,
        ) + bytes_of("\r\n")
    }

    pub fn as_bytes(&self) -> (r: Vec<u8>)
        ensures
            r@ == self.wire(),
            r@.len() <= Self::LEN,
    {
        proof {
            reveal_strlit("AT+CIPSTART=");
            reveal_strlit("\"");
            reveal_strlit("\",\"");
            reveal_strlit("\",");
            reveal_strlit("\r\n");
            assert(is_ascii("AT+CIPSTART="));
            assert(is_ascii("\""));
            assert(is_ascii("\",\""));
            assert(is_ascii("\","));
            assert(is_ascii("\r\n"));
            lemma_decimal_short(self.remote_addr.port as nat);
        }
        let mut buf = text_vec("AT+CIPSTART=");
        push_mux_field(&mut buf, self.mux);
        push_text(&mut buf, "\"");
        push_text(&mut buf, self.protocol.as_at_str());
        push_text(&mut buf, "\",\"");
        push_ip(&mut buf, self.remote_addr.ip);
        push_text(&mut buf, "\",");
        push_decimal(&mut buf, self.remote_addr.port);
        push_text(&mut buf, "\r\n");
        buf
    }

    /// The reply is not read.
    pub fn parse<E>(&self, resp: Result<&[u8], E>) -> (r: Result<EmptyResponse, Error<E>>)
        ensures
            r == ignored_outcome(resp),
    {
        parse_ignored(resp)
    }
}

/// Prepare to send `length` bytes of data.
///
/// This message MUST be followed by a `SendData` message.
#[derive(Debug, Clone, Copy, PartialEq, Eq, Structural)]
pub struct PrepareSendData {
    pub mux: MultiplexingType,
    pub length: u16,
}

impl PrepareSendData {
    pub const LEN: usize = 20;

    pub const MAX_TIMEOUT_MS: u32 = 5_000;

    pub fn new(mux: MultiplexingType, length: u16) -> (r: PrepareSendData)
        ensures
            r == (PrepareSendData { mux, length }),
    {
        PrepareSendData { mux, length }
    }

    /// `AT+CIPSEND=[<id>,]<length>`
    pub open spec fn wire(self) -> Seq<u8> {
        bytes_of("AT+CIPSEND=") + mux_field(self.mux) + decimal(self.length as nat) + bytes_of(
            "\r\n",
        )
    }

    pub fn as_bytes(&self) -> (r: Vec<u8>)
        ensures
            r@ == self.wire(),
            r@.len() <= Self::LEN,
    {
        proof {
            reveal_strlit("AT+CIPSEND=");
            reveal_strlit("\r\n");
            assert(is_ascii("AT+CIPSEND="));
            assert(is_ascii("\r\n"));
            lemma_decimal_short(self.length as nat);
        }
        let mut buf = text_vec("AT+CIPSEND=");
        push_mux_field(&mut buf, self.mux);
        push_decimal(&mut buf, self.length);
        push_text(&mut buf, "\r\n");
        buf
    }

    /// The reply is not read.
    pub fn parse<E>(&self, resp: Result<&[u8], E>) -> (r: Result<EmptyResponse, Error<E>>)
        ensures
            r == ignored_outcome(resp),
    {
        parse_ignored(resp)
    }
}

/// Send data.
///
/// This message MUST directly follow a `PrepareSendData` message. The data
/// is sent as it is; `L` is the most bytes it may hold.
#[derive(Debug)]
pub struct SendData<'a, const L: usize> {
    data: &'a str,
}

impl<'a, const L: usize> SendData<'a, L> {
    pub const MAX_TIMEOUT_MS: u32 = 30_000;

    #[verifier::type_invariant]
    spec fn fits(self) -> bool {
        bytes_of(self.data).len() <= L
    }

    /// The bytes to send.
    pub closed spec fn data(self) -> Seq<u8> {
        bytes_of(self.data)
    }

    /// Data longer than `L` bytes is refused.
    pub fn new(data: &'a str) -> (r: Result<SendData<'a, L>, ErrorKind>)
        ensures
            bytes_of(data).len() <= L ==> (r matches Ok(s) && s.data() == bytes_of(data)),
            bytes_of(data).len() > L ==> r == Err::<SendData<'a, L>, ErrorKind>(
                ErrorKind::CapacityExceeded,
            ),
    {
        if data.as_bytes().len() > L {
            return Err(ErrorKind::CapacityExceeded);
        }
        Ok(SendData { data })
    }

    pub fn as_bytes(&self) -> (r: Vec<u8>)
        ensures
            r@ == self.data(),
            r@.len() <= L,
    {
        proof {
            use_type_invariant(self);
        }
        text_vec(self.data)
    }

    /// The reply is not read.
    pub fn parse<E>(&self, resp: Result<&[u8], E>) -> (r: Result<EmptyResponse, Error<E>>)
        ensures
            r == ignored_outcome(resp),
    {
        parse_ignored(resp)
    }
}

/// The `=<id>` that closes one link of a multiplexed connection.
pub open spec fn close_field(m: MultiplexingType) -> Seq<u8> {
    match m {
        MultiplexingType::NonMultiplexed => Seq::empty(),
        MultiplexingType::Multiplexed(id) => seq![61u8, id.code()],
    }
}

/// Close the TCP/UDP/SSL Connection.
#[derive(Debug, Clone, Copy, PartialEq, Eq, Structural)]
pub struct CloseConnection {
    pub mux: MultiplexingType,
}

impl CloseConnection {
    pub const LEN: usize = 15;

    pub const MAX_TIMEOUT_MS: u32 = 5_000;

    pub fn new(mux: MultiplexingType) -> (r: CloseConnection)
        ensures
            r == (CloseConnection { mux }),
    {
        CloseConnection { mux }
    }

    /// `AT+CIPCLOSE[=<id>]`
    pub open spec fn wire(self) -> Seq<u8> {
        bytes_of("AT+CIPCLOSE") + close_field(self.mux) + bytes_of("\r\n")
    }

    pub fn as_bytes(&self) -> (r: Vec<u8>)
        ensures
            r@ == self.wire(),
            r@.len() <= Self::LEN,
    {
        proof {
            reveal_strlit("AT+CIPCLOSE");
            reveal_strlit("\r\n");
            assert(is_ascii("AT+CIPCLOSE"));
            assert(is_ascii("\r\n"));
        }
        let mut buf = text_vec("AT+CIPCLOSE");
        if let MultiplexingType::Multiplexed(id) = self.mux {
            buf.push(61);
            push_text(&mut buf, id.as_at_str());
            assert(buf@ =~= bytes_of("AT+CIPCLOSE") + close_field(self.mux));
        } else {
            assert(buf@ =~= bytes_of("AT+CIPCLOSE") + close_field(self.mux));
        }
        push_text(&mut buf, "\r\n");
        buf
    }

    /// The reply is not read.
    pub fn parse<E>(&self, resp: Result<&[u8], E>) -> (r: Result<EmptyResponse, Error<E>>)
        ensures
            r == ignored_outcome(resp),
    {
        parse_ignored(resp)
    }
}

} // verus!
