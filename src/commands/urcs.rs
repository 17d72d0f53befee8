//! Unsolicited notifications from the ESP8266 device, and the framer that
//! cuts incoming network data (`+IPD`) out of the receive buffer.
//!
//! A `+IPD` frame is `+IPD,` and a header of comma-separated fields ended
//! by `:`, then exactly as many raw bytes as the header declares. The
//! header is `<len>`, `<id>,<len>`, `<len>,<ip>,<port>` or
//! `<id>,<len>,<ip>,<port>`: the number of commas tells the shapes apart.
//! The payload is counted, never scanned: it may hold any byte.
use crate::buffers::{urc_buffer, urc_bytes};
use crate::commands::responses::viewed;
use crate::error::ErrorKind;
use crate::text::{
    all_digits, bytes_of, decimal_value, digit_bytes, find_byte, find_from, lemma_decimal_prefix,
    lemma_decimal_prefix_le, split, split_ranges, starts_with, starts_with_bytes,
};
use crate::types::ConnectionId;
use vstd::prelude::*;
use vstd::slice::slice_subrange;

verus! {

broadcast use vstd::string::group_string_axioms;

/// The most bytes of a notification's payload, or of the text of a
/// notification that is not network data.
pub const URC_CAPACITY: usize = 2048;

/// Incoming data from the network (+IPD).
#[derive(Debug, PartialEq, Eq)]
pub struct NetworkData {
    /// The connection ID. Only set in multiplexed mode.
    pub connection_id: Option<ConnectionId>,
    /// The incoming bytes.
    pub data: heapless::Vec<u8, URC_CAPACITY>,
}

pub struct NetworkDataView {
    pub connection_id: Option<ConnectionId>,
    pub data: Seq<u8>,
}

impl View for NetworkData {
    type V = NetworkDataView;

    open spec fn view(&self) -> NetworkDataView {
        NetworkDataView { connection_id: self.connection_id, data: urc_bytes(self.data) }
    }
}

/// An unsolicited notification.
#[derive(Debug, PartialEq, Eq)]
pub enum EspUrc {
    /// Incoming data from the network
    NetworkData(NetworkData),
    /// Any other notification, as its raw bytes
    Other(heapless::Vec<u8, URC_CAPACITY>),
}

pub enum EspUrcView {
    NetworkData(NetworkDataView),
    Other(Seq<u8>),
}

impl View for EspUrc {
    type V = EspUrcView;

    open spec fn view(&self) -> EspUrcView {
        match self {
            EspUrc::NetworkData(d) => EspUrcView::NetworkData(d@),
            EspUrc::Other(b) => EspUrcView::Other(urc_bytes(*b)),
        }
    }
}

/// What the framer makes of the front of the receive buffer.
#[derive(Debug, PartialEq, Eq)]
pub enum Extracted {
    /// The buffer does not start with a `+IPD` frame: another matcher's turn.
    NotAFrame,
    /// A frame has begun but is not all there yet: wait for more bytes.
    Incomplete,
    /// A whole frame: take `consumed` bytes off the front of the buffer.
    Complete { consumed: usize, message: EspUrc },
}

pub enum ExtractedView {
    NotAFrame,
    Incomplete,
    Complete { consumed: nat, message: EspUrcView },
}

impl View for Extracted {
    type V = ExtractedView;

    open spec fn view(&self) -> ExtractedView {
        match self {
            Extracted::NotAFrame => ExtractedView::NotAFrame,
            Extracted::Incomplete => ExtractedView::Incomplete,
            Extracted::Complete { consumed, message } => ExtractedView::Complete {
                consumed: *consumed as nat,
                message: message@,
            },
        }
    }
}

pub open spec fn ipd_prefix() -> Seq<u8> {
    bytes_of("+IPD,")
}

/// The connection id (multiplexed shapes) and the length field of a header.
pub open spec fn header_of(params: Seq<u8>) -> Result<(Option<ConnectionId>, Seq<u8>), ErrorKind> {
    let f = split(params, 44);
    if f.len() == 1 || f.len() == 3 {
        Ok((None, f[0]))
    } else if f.len() == 2 || f.len() == 4 {
        if f[0].len() == 1 && ConnectionId::from_code(f[0][0]) is Some {
            Ok((ConnectionId::from_code(f[0][0]), f[1]))
        } else {
            Err(ErrorKind::Parse)
        }
    } else {
        Err(ErrorKind::Parse)
    }
}

/// The declared payload length: decimal digits, at most `URC_CAPACITY`.
pub open spec fn length_of(f: Seq<u8>) -> Result<nat, ErrorKind> {
    if f.len() == 0 || !all_digits(f) {
        Err(ErrorKind::Parse)
    } else if decimal_value(f) > URC_CAPACITY {
        Err(ErrorKind::CapacityExceeded)
    } else {
        Ok(decimal_value(f))
    }
}

/// The framer's verdict on a buffer `b`. A buffer that does not start
/// with the whole `+IPD,` signature is not a frame. After the signature, up
/// to the `:` that ends the header the frame is incomplete; once the header
/// is there, a bad header is an error and a short payload is incomplete.
pub open spec fn extract_of(b: Seq<u8>) -> Result<ExtractedView, ErrorKind> {
    let p = ipd_prefix();
    if !starts_with(b, p) {
        Ok(ExtractedView::NotAFrame)
    } else {
        match find_from(b, 58, p.len() as int) {
            None => Ok(ExtractedView::Incomplete),
            Some(c) => match header_of(b.subrange(p.len() as int, c)) {
                Err(k) => Err(k),
                Ok(h) => match length_of(h.1) {
                    Err(k) => Err(k),
                    Ok(n) => if b.len() < c + 1 + n {
                        Ok(ExtractedView::Incomplete)
                    } else {
                        Ok(
                            ExtractedView::Complete {
                                consumed: (c + 1 + n) as nat,
                                message: EspUrcView::NetworkData(
                                    NetworkDataView {
                                        connection_id: h.0,
                                        data: b.subrange(c + 1, c + 1 + n),
                                    },
                                ),
                            },
                        )
                    },
                },
            },
        }
    }
}

fn parse_length(f: &[u8]) -> (r: Result<usize, ErrorKind>)
    ensures
        match length_of(f@) {
            Ok(n) => r == Ok::<usize, ErrorKind>(n as usize),
            Err(k) => r == Err::<usize, ErrorKind>(k),
        },
{
    if f.len() == 0 || !digit_bytes(f) {
        return Err(ErrorKind::Parse);
    }
    let mut acc: usize = 0;
    let mut i: usize = 0;
    assert(f@.take(0) =~= Seq::<u8>::empty());
    while i < f.len()
        invariant
            all_digits(f@),
            i <= f@.len(),
            acc == decimal_value(f@.take(i as int)),
            acc <= URC_CAPACITY,
        decreases f@.len() - i,
    {
        proof {
            lemma_decimal_prefix(f@, i as int);
        }
        acc = acc * 10 + (f[i] - 48) as usize;
        if acc > URC_CAPACITY {
            proof {
                lemma_decimal_prefix_le(f@, i + 1);
            }
            return Err(ErrorKind::CapacityExceeded);
        }
        i = i + 1;
    }
    assert(f@.take(f@.len() as int) =~= f@);
    Ok(acc)
}

/// The connection id and where the length field lies in `params`.
fn parse_header(params: &[u8]) -> (r: Result<(Option<ConnectionId>, usize, usize), ErrorKind>)
    ensures
        match header_of(params@) {
            Ok(h) => r matches Ok(x) && x.0 == h.0 && x.1 <= x.2 <= params@.len()
                && params@.subrange(x.1 as int, x.2 as int) == h.1,
            Err(k) => r == Err::<(Option<ConnectionId>, usize, usize), ErrorKind>(k),
        },
{
    let f = split_ranges(params, 44);
    let n = f.len();
    if n == 1 || n == 3 {
        Ok((None, f[0].0, f[0].1))
    } else if n == 2 || n == 4 {
        let (a, e) = f[0];
        if e - a != 1 {
            return Err(ErrorKind::Parse);
        }
        assert(params@.subrange(a as int, e as int)[0] == params@[a as int]);
        match ConnectionId::from_digit(params[a]) {
            Some(id) => Ok((Some(id), f[1].0, f[1].1)),
            None => Err(ErrorKind::Parse),
        }
    } else {
        Err(ErrorKind::Parse)
    }
}

/// Looks at the front of the receive buffer for a `+IPD` frame. The
/// verdict depends on the bytes of `buf` alone; on `Complete` the caller
/// removes exactly `consumed` bytes, and otherwise leaves the buffer as is.
pub fn try_extract(buf: &[u8]) -> (r: Result<Extracted, ErrorKind>)
    ensures
        viewed(r) == extract_of(buf@),
{
    let p = "+IPD,".as_bytes();
    if !starts_with_bytes(buf, p) {
        return Ok(Extracted::NotAFrame);
    }
    let c = match find_byte(buf, 58, p.len()) {
        Some(c) => c,
        None => return Ok(Extracted::Incomplete),
    };
    proof {
        lemma_found(buf@, 58, p@.len() as int);
    }
    let params = slice_subrange(buf, p.len(), c);
    let (id, a, e) = match parse_header(params) {
        Ok(h) => h,
        Err(k) => return Err(k),
    };
    let len_field = slice_subrange(params, a, e);
    let n = match parse_length(len_field) {
        Ok(n) => n,
        Err(k) => return Err(k),
    };
    if buf.len() - (c + 1) < n {
        return Ok(Extracted::Incomplete);
    }
    let data = match urc_buffer(slice_subrange(buf, c + 1, c + 1 + n)) {
        Some(d) => d,
        None => return Err(ErrorKind::CapacityExceeded),
    };
    Ok(
        Extracted::Complete {
            consumed: c + 1 + n,
            message: EspUrc::NetworkData(NetworkData { connection_id: id, data }),
        },
    )
}

/// What `find_from` finds lies in range and holds the byte sought.
proof fn lemma_found(s: Seq<u8>, x: u8, i: int)
    ensures
        find_from(s, x, i) matches Some(c) ==> i <= c < s.len() && s[c] == x,
    decreases s.len() - i,
{
    if 0 <= i < s.len() && s[i] != x {
        lemma_found(s, x, i + 1);
    }
}

/// A whole `+IPD` notification: a frame whose payload ends the text.
pub open spec fn network_data_of(s: Seq<u8>) -> Result<NetworkDataView, ErrorKind> {
    match extract_of(s) {
        Ok(ExtractedView::Complete { consumed, message: EspUrcView::NetworkData(d) }) => {
            if consumed == s.len() {
                Ok(d)
            } else {
                Err(ErrorKind::Parse)
            }
        },
        Ok(_) => Err(ErrorKind::Parse),
        Err(k) => Err(k),
    }
}

impl NetworkData {
    pub fn from_urc(urc: &[u8]) -> (r: Result<NetworkData, ErrorKind>)
        ensures
            viewed(r) == network_data_of(urc@),
    {
        match try_extract(urc) {
            Ok(Extracted::Complete { consumed, message: EspUrc::NetworkData(d) }) => {
                if consumed == urc.len() {
                    Ok(d)
                } else {
                    Err(ErrorKind::Parse)
                }
            },
            Ok(_) => Err(ErrorKind::Parse),
            Err(k) => Err(k),
        }
    }
}

/// A whole notification: network data where it starts with `+IPD,`, else
/// its bytes as they are.
pub open spec fn urc_of(s: Seq<u8>) -> Result<EspUrcView, ErrorKind> {
    if starts_with(s, ipd_prefix()) {
        match network_data_of(s) {
            Ok(d) => Ok(EspUrcView::NetworkData(d)),
            Err(k) => Err(k),
        }
    } else if s.len() > URC_CAPACITY {
        Err(ErrorKind::CapacityExceeded)
    } else {
        Ok(EspUrcView::Other(s))
    }
}

impl EspUrc {
    pub fn parse(urc: &[u8]) -> (r: Result<EspUrc, ErrorKind>)
        ensures
            viewed(r) == urc_of(urc@),
    {
        if starts_with_bytes(urc, "+IPD,".as_bytes()) {
            match NetworkData::from_urc(urc) {
                Ok(d) => Ok(EspUrc::NetworkData(d)),
                Err(k) => Err(k),
            }
        } else {
            match urc_buffer(urc) {
                Some(b) => Ok(EspUrc::Other(b)),
                None => Err(ErrorKind::CapacityExceeded),
            }
        }
    }
}

proof fn lemma_find_kept(s: Seq<u8>, more: Seq<u8>, x: u8, i: int)
    requires
        find_from(s, x, i) is Some,
    ensures
        find_from(s + more, x, i) == find_from(s, x, i),
    decreases s.len() - i,
{
    if 0 <= i < s.len() {
        assert((s + more)[i] == s[i]);
        if s[i] != x {
            lemma_find_kept(s, more, x, i + 1);
        }
    }
}

/// A complete frame is the same complete frame whatever bytes arrive after
/// it, so a frame fed in pieces ends as it would fed whole.
pub proof fn lemma_complete_frame_kept(b: Seq<u8>, more: Seq<u8>)
    requires
        extract_of(b) matches Ok(ExtractedView::Complete { .. }),
    ensures
        extract_of(b + more) == extract_of(b),
{
    let p = ipd_prefix();
    let bm = b + more;
    assert(bm.subrange(0, p.len() as int) =~= b.subrange(0, p.len() as int));
    lemma_find_kept(b, more, 58, p.len() as int);
    let c = find_from(b, 58, p.len() as int)->0;
    lemma_found(b, 58, p.len() as int);
    assert(bm.subrange(p.len() as int, c) =~= b.subrange(p.len() as int, c));
    let h = header_of(b.subrange(p.len() as int, c))->Ok_0;
    let n = length_of(h.1)->Ok_0;
    assert(bm.subrange(c + 1, c + 1 + n) =~= b.subrange(c + 1, c + 1 + n));
}

/// A buffer that holds as many bytes as the `+IPD,` signature and starts
/// with no frame keeps starting with none as bytes arrive.
pub proof fn lemma_not_a_frame_kept(b: Seq<u8>, more: Seq<u8>)
    requires
        b.len() >= ipd_prefix().len(),
        extract_of(b) == Ok::<ExtractedView, ErrorKind>(ExtractedView::NotAFrame),
    ensures
        extract_of(b + more) == Ok::<ExtractedView, ErrorKind>(ExtractedView::NotAFrame),
{
    let p = ipd_prefix();
    assert((b + more).subrange(0, p.len() as int) =~= b.subrange(0, p.len() as int));
}

proof fn lemma_find_in_front(s: Seq<u8>, k: int, x: u8, i: int)
    requires
        find_from(s, x, i) matches Some(j) && j < k <= s.len(),
    ensures
        find_from(s.take(k), x, i) == find_from(s, x, i),
    decreases s.len() - i,
{
    lemma_found(s, x, i);
    if 0 <= i < s.len() {
        assert(s.take(k)[i] == s[i]);
        if s[i] != x {
            lemma_find_in_front(s, k, x, i + 1);
        }
    }
}

/// The bytes that a complete frame consumes, read as a whole notification,
/// give the message that the framer returned.
pub proof fn lemma_consumed_frame_parses(b: Seq<u8>)
    requires
        extract_of(b) matches Ok(ExtractedView::Complete { .. }),
    ensures
        extract_of(b) matches Ok(ExtractedView::Complete { consumed, message }) && urc_of(
            b.take(consumed as int),
        ) == Ok::<EspUrcView, ErrorKind>(message),
{
    let p = ipd_prefix();
    lemma_found(b, 58, p.len() as int);
    let c = find_from(b, 58, p.len() as int)->0;
    let h = header_of(b.subrange(p.len() as int, c))->Ok_0;
    let n = length_of(h.1)->Ok_0;
    let front = b.take(c + 1 + n);
    assert(front.subrange(0, p.len() as int) =~= b.subrange(0, p.len() as int));
    lemma_find_in_front(b, c + 1 + n, 58, p.len() as int);
    assert(front.subrange(p.len() as int, c) =~= b.subrange(p.len() as int, c));
    assert(front.subrange(c + 1, c + 1 + n) =~= b.subrange(c + 1, c + 1 + n));
}

} // verus!
