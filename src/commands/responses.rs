//! Responses from the ESP8266 device, and how each is read from the bytes
//! of a reply.
use crate::buffers::{text17, text17_bytes, text32, text32_bytes};
use crate::error::ErrorKind;
use crate::text::{
    as_text, ascii_bytes, bytes_of, is_ascii_seq, is_blank, lemma_ascii_text,
    lemma_ascii_valid_utf8, lemma_valid_between, line_ranges, lines, same_bytes, starts_with, starts_with_bytes, trimmed,
};
use crate::types::{ipv4_of, parse_ipv4, ConnectionStatus, Ipv4Address, WifiMode};
use vstd::prelude::*;
use vstd::slice::slice_subrange;
use vstd::string::*;
use vstd::utf8::{encode_utf8_decode_utf8, valid_utf8};

verus! {

broadcast use vstd::string::group_string_axioms;

/// A decode outcome with its value seen through its view.
pub open spec fn viewed<T: View, K>(r: Result<T, K>) -> Result<T::V, K> {
    match r {
        Ok(v) => Ok(v@),
        Err(k) => Err(k),
    }
}

/// An empty response, no body.
#[derive(Debug, Clone, Copy, PartialEq, Eq, Structural)]
pub struct EmptyResponse;

/// A reply that must say nothing: text that is empty once trimmed of
/// Unicode white space. Other text is an unexpected answer; bytes that are
/// not UTF-8 text are a parse error.
pub open spec fn empty_response_of(s: Seq<u8>) -> Result<EmptyResponse, ErrorKind> {
    if !valid_utf8(s) {
        Err(ErrorKind::Parse)
    } else if is_blank(s) {
        Ok(EmptyResponse)
    } else {
        Err(ErrorKind::InvalidResponse)
    }
}

impl EmptyResponse {
    pub fn from_resp(b: &[u8]) -> (r: Result<EmptyResponse, ErrorKind>)
        ensures
            r == empty_response_of(b@),
    {
        match as_text(b) {
            None => Err(ErrorKind::Parse),
            Some(t) => {
                proof {
                    encode_utf8_decode_utf8(t@);
                }
                if trimmed(t).is_empty() {
                    Ok(EmptyResponse)
                } else {
                    Err(ErrorKind::InvalidResponse)
                }
            },
        }
    }
}

/// The most bytes that each field of a firmware version holds.
pub const FIRMWARE_FIELD_CAPACITY: usize = 32;

/// Firmware version: the text after each line's label.
#[derive(Debug, PartialEq, Eq)]
pub struct FirmwareVersion {
    pub at_version: heapless::String<32>,
    pub sdk_version: heapless::String<32>,
    pub compile_time: heapless::String<32>,
}

pub struct FirmwareVersionView {
    pub at_version: Seq<u8>,
    pub sdk_version: Seq<u8>,
    pub compile_time: Seq<u8>,
}

impl View for FirmwareVersion {
    type V = FirmwareVersionView;

    open spec fn view(&self) -> FirmwareVersionView {
        FirmwareVersionView {
            at_version: text32_bytes(self.at_version),
            sdk_version: text32_bytes(self.sdk_version),
            compile_time: text32_bytes(self.compile_time),
        }
    }
}

/// Three lines, labelled in order `AT version:`, `SDK version:` and
/// `compile time:`; later lines are not read.
pub open spec fn firmware_version_of(s: Seq<u8>) -> Result<FirmwareVersionView, ErrorKind> {
    let ls = lines(s);
    let at_label = bytes_of("AT version:");
    let sdk_label = bytes_of("SDK version:");
    let time_label = bytes_of("compile time:");
    if !valid_utf8(s) {
        Err(ErrorKind::Parse)
    } else if ls.len() < 3 || !starts_with(ls[0], at_label) || !starts_with(ls[1], sdk_label) || !starts_with(
        ls[2],
        time_label,
    ) {
        Err(ErrorKind::Parse)
    } else {
        let v = FirmwareVersionView {
            at_version: ls[0].skip(at_label.len() as int),
            sdk_version: ls[1].skip(sdk_label.len() as int),
            compile_time: ls[2].skip(time_label.len() as int),
        };
        if v.at_version.len() > FIRMWARE_FIELD_CAPACITY || v.sdk_version.len()
            > FIRMWARE_FIELD_CAPACITY || v.compile_time.len() > FIRMWARE_FIELD_CAPACITY {
            Err(ErrorKind::CapacityExceeded)
        } else {
            Ok(v)
        }
    }
}

/// The rest of the line `b[start..end]` after `label`, if the line starts
/// with it; text where `b` is, since ASCII borders it.
fn labelled_field<'a>(b: &'a [u8], start: usize, end: usize, label: &str) -> (r: Option<&'a [u8]>)
    requires
        start <= end <= b@.len(),
        end == b@.len() || b@[end as int] < 128,
        bytes_of(label).len() >= 1,
        is_ascii_seq(bytes_of(label)),
    ensures
        match r {
            Some(f) => starts_with(b@.subrange(start as int, end as int), bytes_of(label))
                && f@ == b@.subrange(start as int, end as int).skip(bytes_of(label).len() as int)
                && (valid_utf8(b@) ==> valid_utf8(f@)),
            None => !starts_with(b@.subrange(start as int, end as int), bytes_of(label)),
        },
{
    let line = slice_subrange(b, start, end);
    let p = label.as_bytes();
    if !starts_with_bytes(line, p) {
        return None;
    }
    let f = slice_subrange(b, start + p.len(), end);
    assert(f@ =~= line@.skip(p@.len() as int));
    proof {
        let x = start + p@.len();
        assert(b@[x - 1] == line@[p@.len() - 1]);
        assert(line@.subrange(0, p@.len() as int)[p@.len() - 1] == p@[p@.len() - 1]);
        if valid_utf8(b@) {
            lemma_valid_between(b@, x, end as int);
        }
    }
    Some(f)
}

/// A field's text in a 32-byte string, or `CapacityExceeded`.
fn field32(f: &[u8]) -> (r: Result<heapless::String<32>, ErrorKind>)
    requires
        valid_utf8(f@),
    ensures
        f@.len() <= 32 ==> (r matches Ok(s) && text32_bytes(s) == f@),
        f@.len() > 32 ==> r == Err::<heapless::String<32>, ErrorKind>(
            ErrorKind::CapacityExceeded,
        ),
{
    match as_text(f) {
        Some(t) => match text32(t) {
            Some(s) => Ok(s),
            None => Err(ErrorKind::CapacityExceeded),
        },
        None => Err(ErrorKind::Parse),
    }
}

impl FirmwareVersion {
    pub fn from_resp(b: &[u8]) -> (r: Result<FirmwareVersion, ErrorKind>)
        ensures
            viewed(r) == firmware_version_of(b@),
    {
        if as_text(b).is_none() {
            return Err(ErrorKind::Parse);
        }
        let ls = line_ranges(b);
        if ls.len() < 3 {
            return Err(ErrorKind::Parse);
        }
        proof {
            reveal_strlit("AT version:");
            reveal_strlit("SDK version:");
            reveal_strlit("compile time:");
            assert(is_ascii("AT version:"));
            assert(is_ascii("SDK version:"));
            assert(is_ascii("compile time:"));
            lemma_ascii_text("AT version:");
            lemma_ascii_text("SDK version:");
            lemma_ascii_text("compile time:");
            assert(ls@[0].1 == b@.len() || b@[ls@[0].1 as int] < 128);
            assert(ls@[1].1 == b@.len() || b@[ls@[1].1 as int] < 128);
            assert(ls@[2].1 == b@.len() || b@[ls@[2].1 as int] < 128);
        }
        let f0 = match labelled_field(b, ls[0].0, ls[0].1, "AT version:") {
            Some(f) => f,
            None => return Err(ErrorKind::Parse),
        };
        let f1 = match labelled_field(b, ls[1].0, ls[1].1, "SDK version:") {
            Some(f) => f,
            None => return Err(ErrorKind::Parse),
        };
        let f2 = match labelled_field(b, ls[2].0, ls[2].1, "compile time:") {
            Some(f) => f,
            None => return Err(ErrorKind::Parse),
        };
        let at_version = match field32(f0) {
            Ok(s) => s,
            Err(k) => return Err(k),
        };
        let sdk_version = match field32(f1) {
            Ok(s) => s,
            Err(k) => return Err(k),
        };
        let compile_time = match field32(f2) {
            Ok(s) => s,
            Err(k) => return Err(k),
        };
        Ok(FirmwareVersion { at_version, sdk_version, compile_time })
    }
}

/// Generic string response.
#[derive(Debug)]
pub struct StringResponse<const L: usize>(pub(crate) heapless::String<L>);

/// The label of the WiFi-mode reply: the current or the stored mode.
pub open spec fn wifi_mode_label(persisted: bool) -> Seq<u8> {
    if persisted {
        bytes_of("+CWMODE_DEF:")
    } else {
        bytes_of("+CWMODE_CUR:")
    }
}

/// The label, then the mode's digit right after it.
pub open spec fn wifi_mode_of(s: Seq<u8>, persisted: bool) -> Result<WifiMode, ErrorKind> {
    let p = wifi_mode_label(persisted);
    if !valid_utf8(s) {
        Err(ErrorKind::Parse)
    } else if !starts_with(s, p) || s.len() <= p.len() {
        Err(ErrorKind::InvalidResponse)
    } else if s[p.len() as int] == 49 {
        Ok(WifiMode::Station)
    } else if s[p.len() as int] == 50 {
        Ok(WifiMode::Ap)
    } else if s[p.len() as int] == 51 {
        Ok(WifiMode::Both)
    } else {
        Err(ErrorKind::InvalidResponse)
    }
}

/// Reads the current (`persisted == false`) or stored WiFi mode.
pub fn wifi_mode_from_resp(b: &[u8], persisted: bool) -> (r: Result<WifiMode, ErrorKind>)
    ensures
        r == wifi_mode_of(b@, persisted),
{
    if as_text(b).is_none() {
        return Err(ErrorKind::Parse);
    }
    let p = if persisted {
        "+CWMODE_DEF:".as_bytes()
    } else {
        "+CWMODE_CUR:".as_bytes()
    };
    if !starts_with_bytes(b, p) || b.len() <= p.len() {
        return Err(ErrorKind::InvalidResponse);
    }
    let c = b[p.len()];
    if c == 49 {
        Ok(WifiMode::Station)
    } else if c == 50 {
        Ok(WifiMode::Ap)
    } else if c == 51 {
        Ok(WifiMode::Both)
    } else {
        Err(ErrorKind::InvalidResponse)
    }
}

/// AP join result.
#[derive(Debug, Clone, Copy, PartialEq, Eq, Structural)]
pub struct JoinResponse {
    pub connected: bool,
    pub got_ip: bool,
}

/// One line of a join reply: the three state markers move the flags, any
/// other line leaves them.
pub open spec fn join_step(acc: JoinResponse, l: Seq<u8>) -> JoinResponse {
    if l == bytes_of("WIFI DISCONNECTED") {
        JoinResponse { connected: false, got_ip: acc.got_ip }
    } else if l == bytes_of("WIFI CONNECTED") {
        JoinResponse { connected: true, got_ip: acc.got_ip }
    } else if l == bytes_of("WIFI GOT IP") {
        JoinResponse { connected: acc.connected, got_ip: true }
    } else {
        acc
    }
}

/// The flags after the lines `ls`, in order, starting from both unset.
pub open spec fn join_fold(ls: Seq<Seq<u8>>) -> JoinResponse
    decreases ls.len(),
{
    if ls.len() == 0 {
        JoinResponse { connected: false, got_ip: false }
    } else {
        join_step(join_fold(ls.drop_last()), ls.last())
    }
}

pub open spec fn join_response_of(s: Seq<u8>) -> Result<JoinResponse, ErrorKind> {
    if !valid_utf8(s) {
        Err(ErrorKind::Parse)
    } else {
        Ok(join_fold(lines(s)))
    }
}

impl JoinResponse {
    pub fn from_resp(b: &[u8]) -> (r: Result<JoinResponse, ErrorKind>)
        ensures
            r == join_response_of(b@),
    {
        if as_text(b).is_none() {
            return Err(ErrorKind::Parse);
        }
        let ls = line_ranges(b);
        let ghost all = lines(b@);
        let mut acc = JoinResponse { connected: false, got_ip: false };
        let mut k: usize = 0;
        assert(all.take(0) =~= Seq::<Seq<u8>>::empty());
        while k < ls.len()
            invariant
                k <= ls@.len(),
                ls@.len() == all.len(),
                all == lines(b@),
                forall|j: int|
                    0 <= j < ls@.len() ==> {
                        &&& (#[trigger] ls@[j]).0 <= ls@[j].1 <= b@.len()
                        &&& b@.subrange(ls@[j].0 as int, ls@[j].1 as int) == all[j]
                    },
                acc == join_fold(all.take(k as int)),
            decreases ls@.len() - k,
        {
            let (a, e) = ls[k];
            let line = slice_subrange(b, a, e);
            assert(all.take(k + 1).drop_last() =~= all.take(k as int));
            assert(all.take(k + 1).last() == line@);
            if same_bytes(line, "WIFI DISCONNECTED".as_bytes()) {
                acc = JoinResponse { connected: false, got_ip: acc.got_ip };
            } else if same_bytes(line, "WIFI CONNECTED".as_bytes()) {
                acc = JoinResponse { connected: true, got_ip: acc.got_ip };
            } else if same_bytes(line, "WIFI GOT IP".as_bytes()) {
                acc = JoinResponse { connected: acc.connected, got_ip: true };
            }
            k = k + 1;
        }
        assert(all.take(ls@.len() as int) =~= all);
        Ok(acc)
    }
}

/// `STATUS:` and one digit: 2 to 5 are known states, any other digit is
/// kept as it is.
pub open spec fn connection_status_of(s: Seq<u8>) -> Result<ConnectionStatus, ErrorKind> {
    let p = bytes_of("STATUS:");
    if !valid_utf8(s) {
        Err(ErrorKind::Parse)
    } else if !starts_with(s, p) || s.len() <= p.len() || s[p.len() as int] >= 128 {
        Err(ErrorKind::InvalidResponse)
    } else {
        let c = s[p.len() as int];
        if c == 50 {
            Ok(ConnectionStatus::ConnectedToAccessPoint)
        } else if c == 51 {
            Ok(ConnectionStatus::InTransmission)
        } else if c == 52 {
            Ok(ConnectionStatus::TransmissionEnded)
        } else if c == 53 {
            Ok(ConnectionStatus::Disconnected)
        } else if 48 <= c <= 57 {
            Ok(ConnectionStatus::Other((c - 48) as u8))
        } else {
            Err(ErrorKind::Parse)
        }
    }
}

pub fn connection_status_from_resp(b: &[u8]) -> (r: Result<ConnectionStatus, ErrorKind>)
    ensures
        r == connection_status_of(b@),
{
    if as_text(b).is_none() {
        return Err(ErrorKind::Parse);
    }
    let p = "STATUS:".as_bytes();
    if !starts_with_bytes(b, p) || b.len() <= p.len() || b[p.len()] >= 128 {
        return Err(ErrorKind::InvalidResponse);
    }
    let c = b[p.len()];
    if c == 50 {
        Ok(ConnectionStatus::ConnectedToAccessPoint)
    } else if c == 51 {
        Ok(ConnectionStatus::InTransmission)
    } else if c == 52 {
        Ok(ConnectionStatus::TransmissionEnded)
    } else if c == 53 {
        Ok(ConnectionStatus::Disconnected)
    } else if 48 <= c && c <= 57 {
        Ok(ConnectionStatus::Other(c - 48))
    } else {
        Err(ErrorKind::Parse)
    }
}

/// The length of a MAC address in text (`dc:4f:22:7e:41:b4`).
pub const MAC_LEN: usize = 17;

/// The locally assigned IP address (none while unassigned) and the MAC
/// address as text.
#[derive(Debug, PartialEq, Eq)]
pub struct LocalAddress {
    pub ip: Option<Ipv4Address>,
    pub mac: heapless::String<17>,
}

pub struct LocalAddressView {
    pub ip: Option<Ipv4Address>,
    pub mac: Seq<u8>,
}

impl View for LocalAddress {
    type V = LocalAddressView;

    open spec fn view(&self) -> LocalAddressView {
        LocalAddressView { ip: self.ip, mac: text17_bytes(self.mac) }
    }
}

/// What the address lines read so far have set.
pub struct AddressScan {
    pub ip: Option<Ipv4Address>,
    pub mac: Option<Seq<u8>>,
}

/// `+CIFSR:STAIP,"<ip>"`: the text between the quotes is `0.0.0.0`
/// (no address) or an address.
pub open spec fn ip_field_of(l: Seq<u8>) -> Result<Option<Ipv4Address>, ErrorKind> {
    let p = bytes_of("+CIFSR:STAIP,");
    if l.len() < p.len() + 2 {
        Err(ErrorKind::Parse)
    } else {
        let raw = l.subrange(p.len() + 1int, l.len() - 1);
        if raw == bytes_of("0.0.0.0") {
            Ok(None)
        } else if is_ascii_seq(raw) && ipv4_of(raw) is Some {
            Ok(ipv4_of(raw))
        } else {
            Err(ErrorKind::Parse)
        }
    }
}

/// `+CIFSR:STAMAC,"<mac>"`: the ASCII text after the opening quote.
pub open spec fn mac_field_of(l: Seq<u8>) -> Result<Seq<u8>, ErrorKind> {
    let p = bytes_of("+CIFSR:STAMAC,");
    if l.len() < p.len() + 1 + MAC_LEN {
        Err(ErrorKind::Parse)
    } else {
        let m = l.subrange(p.len() + 1int, p.len() + 1 + MAC_LEN);
        if is_ascii_seq(m) {
            Ok(m)
        } else {
            Err(ErrorKind::Parse)
        }
    }
}

/// One line of an address reply: a later line of a kind replaces an
/// earlier one, other lines are skipped, the first bad field is the outcome.
pub open spec fn address_step(acc: Result<AddressScan, ErrorKind>, l: Seq<u8>) -> Result<
    AddressScan,
    ErrorKind,
> {
    match acc {
        Err(k) => Err(k),
        Ok(st) => if starts_with(l, bytes_of("+CIFSR:STAIP,")) {
            match ip_field_of(l) {
                Ok(ip) => Ok(AddressScan { ip, mac: st.mac }),
                Err(k) => Err(k),
            }
        } else if starts_with(l, bytes_of("+CIFSR:STAMAC,")) {
            match mac_field_of(l) {
                Ok(m) => Ok(AddressScan { ip: st.ip, mac: Some(m) }),
                Err(k) => Err(k),
            }
        } else {
            Ok(st)
        },
    }
}

pub open spec fn address_fold(ls: Seq<Seq<u8>>) -> Result<AddressScan, ErrorKind>
    decreases ls.len(),
{
    if ls.len() == 0 {
        Ok(AddressScan { ip: None, mac: None })
    } else {
        address_step(address_fold(ls.drop_last()), ls.last())
    }
}

/// The address lines in any order; the MAC line is required, the IP line
/// is not.
pub open spec fn local_address_of(s: Seq<u8>) -> Result<LocalAddressView, ErrorKind> {
    if !valid_utf8(s) {
        Err(ErrorKind::Parse)
    } else {
        match address_fold(lines(s)) {
            Err(k) => Err(k),
            Ok(st) => match st.mac {
                None => Err(ErrorKind::Parse),
                Some(m) => Ok(LocalAddressView { ip: st.ip, mac: m }),
            },
        }
    }
}

proof fn lemma_address_error_stays(ls: Seq<Seq<u8>>, k: int)
    requires
        0 <= k <= ls.len(),
        address_fold(ls.take(k)) is Err,
    ensures
        address_fold(ls) == address_fold(ls.take(k)),
    decreases ls.len(),
{
    if k == ls.len() {
        assert(ls.take(k) =~= ls);
    } else {
        assert(ls.drop_last().take(k) =~= ls.take(k));
        lemma_address_error_stays(ls.drop_last(), k);
    }
}

fn ip_field(l: &[u8]) -> (r: Result<Option<Ipv4Address>, ErrorKind>)
    ensures
        r == ip_field_of(l@),
{
    let p = "+CIFSR:STAIP,".as_bytes();
    if l.len() < 2 || l.len() - 2 < p.len() {
        return Err(ErrorKind::Parse);
    }
    let raw = slice_subrange(l, p.len() + 1, l.len() - 1);
    if same_bytes(raw, "0.0.0.0".as_bytes()) {
        return Ok(None);
    }
    if !ascii_bytes(raw) {
        return Err(ErrorKind::Parse);
    }
    proof {
        lemma_ascii_valid_utf8(raw@);
    }
    match as_text(raw) {
        Some(t) => match parse_ipv4(t) {
            Some(a) => Ok(Some(a)),
            None => Err(ErrorKind::Parse),
        },
        None => Err(ErrorKind::Parse),
    }
}

fn mac_field(l: &[u8]) -> (r: Result<heapless::String<17>, ErrorKind>)
    ensures
        match mac_field_of(l@) {
            Ok(m) => r matches Ok(s) && text17_bytes(s) == m,
            Err(k) => r == Err::<heapless::String<17>, ErrorKind>(k),
        },
{
    let p = "+CIFSR:STAMAC,".as_bytes();
    if l.len() < 1 + MAC_LEN || l.len() - (1 + MAC_LEN) < p.len() {
        return Err(ErrorKind::Parse);
    }
    let m = slice_subrange(l, p.len() + 1, p.len() + 1 + MAC_LEN);
    if !ascii_bytes(m) {
        return Err(ErrorKind::Parse);
    }
    proof {
        lemma_ascii_valid_utf8(m@);
    }
    match as_text(m) {
        Some(t) => match text17(t) {
            Some(s) => Ok(s),
            None => Err(ErrorKind::CapacityExceeded),
        },
        None => Err(ErrorKind::Parse),
    }
}

impl LocalAddress {
    pub fn from_resp(b: &[u8]) -> (r: Result<LocalAddress, ErrorKind>)
        ensures
            viewed(r) == local_address_of(b@),
    {
        if as_text(b).is_none() {
            return Err(ErrorKind::Parse);
        }
        let ls = line_ranges(b);
        let ghost all = lines(b@);
        let mut ip: Option<Ipv4Address> = None;
        let mut mac: Option<heapless::String<17>> = None;
        let mut k: usize = 0;
        assert(all.take(0) =~= Seq::<Seq<u8>>::empty());
        while k < ls.len()
            invariant
                k <= ls@.len(),
                ls@.len() == all.len(),
                all == lines(b@),
                forall|j: int|
                    0 <= j < ls@.len() ==> {
                        &&& (#[trigger] ls@[j]).0 <= ls@[j].1 <= b@.len()
                        &&& b@.subrange(ls@[j].0 as int, ls@[j].1 as int) == all[j]
                    },
                address_fold(all.take(k as int)) == Ok::<AddressScan, ErrorKind>(
                    AddressScan {
                        ip,
                        mac: match mac {
                            Some(m) => Some(text17_bytes(m)),
                            None => None,
                        },
                    },
                ),
            decreases ls@.len() - k,
        {
            let (a, e) = ls[k];
            let line = slice_subrange(b, a, e);
            assert(all.take(k + 1).drop_last() =~= all.take(k as int));
            assert(all.take(k + 1).last() == line@);
            if starts_with_bytes(line, "+CIFSR:STAIP,".as_bytes()) {
                match ip_field(line) {
                    Ok(v) => {
                        ip = v;
                    },
                    Err(x) => {
                        proof {
                            lemma_address_error_stays(all, k + 1);
                        }
                        return Err(x);
                    },
                }
            } else if starts_with_bytes(line, "+CIFSR:STAMAC,".as_bytes()) {
                match mac_field(line) {
                    Ok(v) => {
                        mac = Some(v);
                    },
                    Err(x) => {
                        proof {
                            lemma_address_error_stays(all, k + 1);
                        }
                        return Err(x);
                    },
                }
            }
            k = k + 1;
        }
        assert(all.take(ls@.len() as int) =~= all);
        match mac {
            Some(m) => Ok(LocalAddress { ip, mac: m }),
            None => Err(ErrorKind::Parse),
        }
    }
}

#[derive(Debug, Clone, Copy, PartialEq, Eq, Structural)]
pub enum ConnectResponse {
    /// The connection was opened
    Connected,
    /// The connection is already open
    AlreadyConnected,
}

} // verus!
