//! Wire framing: the fixed-size header in front of every radio packet.
//!
//! A framed packet is the four bytes of the device magic, most significant
//! first, one marker byte that says whether the payload is a coded block
//! fragment or a raw datagram, and then the payload.

use crate::bytes::append_bytes;
use crate::bytes::u32_be;
use vstd::prelude::*;
use vstd::slice::slice_subrange;

verus! {

/// Bytes taken by the device magic.
pub const MAGIC_LEN: usize = 4;

/// Bytes taken by the whole header.
pub const HEADER_LEN: usize = 5;

/// Marker of a packet whose payload is a raw datagram.
pub const PLAIN_MARKER: u8 = 0;

/// Marker of a packet whose payload is a coded block fragment.
pub const FEC_MARKER: u8 = 1;

/// The marker byte for a payload that is (`true`) or is not coded.
pub open spec fn marker(fec: bool) -> u8 {
    if fec {
        FEC_MARKER
    } else {
        PLAIN_MARKER
    }
}

/// The header for the given magic and kind of payload.
pub open spec fn header_bytes(magic: u32, fec: bool) -> Seq<u8> {
    u32_be(magic).push(marker(fec))
}

/// A payload with its header in front.
pub open spec fn framed(magic: u32, fec: bool, payload: Seq<u8>) -> Seq<u8> {
    header_bytes(magic, fec) + payload
}

/// Whether `bytes` starts with the four bytes of `magic`.
pub open spec fn begins_with_magic(magic: u32, bytes: Seq<u8>) -> bool {
    bytes.len() >= MAGIC_LEN && bytes.subrange(0, MAGIC_LEN as int) == u32_be(magic)
}

/// What a received packet is to a link with the given magic: nothing if it is
/// foreign, cut short or carries an unknown marker; otherwise the kind of its
/// payload and the payload.
pub open spec fn parse_frame(magic: u32, bytes: Seq<u8>) -> Option<(bool, Seq<u8>)> {
    if bytes.len() >= HEADER_LEN && begins_with_magic(magic, bytes) && (bytes[4] == PLAIN_MARKER
        || bytes[4] == FEC_MARKER) {
        Some((bytes[4] == FEC_MARKER, bytes.subrange(HEADER_LEN as int, bytes.len() as int)))
    } else {
        None
    }
}

/// What `MagicHeader::from_bytes` returns, as plain values.
pub open spec fn parsed_view(parsed: Option<(bool, &[u8])>) -> Option<(bool, Seq<u8>)> {
    match parsed {
        Some((fec, payload)) => Some((fec, payload@)),
        None => None,
    }
}

/// The header that a link stamps on its packets.
#[derive(Clone, Copy, Debug, PartialEq, Eq, Structural)]
pub struct MagicHeader {
    pub magic: u32,
    pub fec: bool,
}

impl MagicHeader {
    /// The header of a link that sends raw datagrams.
    pub fn new(magic: u32) -> (header: MagicHeader)
        ensures
            header.magic == magic,
            !header.fec,
    {
        MagicHeader { magic, fec: false }
    }

    /// The header of a link that sends coded block fragments.
    pub fn new_fec(magic: u32) -> (header: MagicHeader)
        ensures
            header.magic == magic,
            header.fec,
    {
        MagicHeader { magic, fec: true }
    }

    /// The header as it goes on the wire.
    pub fn to_bytes(&self) -> (bytes: Vec<u8>)
        ensures
            bytes@ == header_bytes(self.magic, self.fec),
    {
        let mut bytes: Vec<u8> = Vec::new();
        bytes.push((self.magic / 16777216) as u8);
        bytes.push(((self.magic / 65536) % 256) as u8);
        bytes.push(((self.magic / 256) % 256) as u8);
        bytes.push((self.magic % 256) as u8);
        bytes.push(if self.fec { FEC_MARKER } else { PLAIN_MARKER });
        assert(bytes@ =~= header_bytes(self.magic, self.fec));
        bytes
    }

    /// `payload` with this header in front.
    pub fn stamp(&self, payload: &[u8]) -> (packet: Vec<u8>)
        ensures
            packet@ == framed(self.magic, self.fec, payload@),
    {
        let mut packet = self.to_bytes();
        append_bytes(&mut packet, payload);
        packet
    }

    /// Strips the header from a received packet. Packets of another link, and
    /// packets too short or with an unknown marker, give `None`. The kind
    /// returned is the one the packet states, whatever this header's own kind.
    pub fn from_bytes<'a>(&self, bytes: &'a [u8]) -> (parsed: Option<(bool, &'a [u8])>)
        ensures
            parsed_view(parsed) == parse_frame(self.magic, bytes@),
    {
        if bytes.len() < HEADER_LEN {
            return None;
        }
        let matches = bytes[0] == (self.magic / 16777216) as u8 && bytes[1] == ((self.magic
            / 65536) % 256) as u8 && bytes[2] == ((self.magic / 256) % 256) as u8 && bytes[3] == (
        self.magic % 256) as u8;
        proof {
            let head = bytes@.subrange(0, MAGIC_LEN as int);
            let want = u32_be(self.magic);
            if matches {
                assert(head =~= want);
            } else {
                assert(head[0] == bytes@[0] && head[1] == bytes@[1] && head[2] == bytes@[2]
                    && head[3] == bytes@[3]);
                assert(head != want);
            }
        }
        if !matches {
            return None;
        }
        let kind = bytes[4];
        if kind != PLAIN_MARKER && kind != FEC_MARKER {
            return None;
        }
        let payload = slice_subrange(bytes, HEADER_LEN, bytes.len());
        Some((kind == FEC_MARKER, payload))
    }
}

/// Stamping a payload and parsing the result gives back the payload and the
/// kind it was stamped with.
pub proof fn lemma_framing_round_trip(magic: u32, fec: bool, payload: Seq<u8>)
    ensures
        parse_frame(magic, framed(magic, fec, payload)) == Some((fec, payload)),
{
    let packet = framed(magic, fec, payload);
    assert(packet.subrange(0, MAGIC_LEN as int) =~= u32_be(magic));
    assert(packet.subrange(HEADER_LEN as int, packet.len() as int) =~= payload);
    assert(packet[4] == marker(fec));
}

/// A packet that does not begin with the magic of the link is dropped.
pub proof fn lemma_foreign_magic_dropped(magic: u32, bytes: Seq<u8>)
    requires
        !begins_with_magic(magic, bytes),
    ensures
        parse_frame(magic, bytes) is None,
{
}

/// Different magics give headers that never pass for one another.
pub proof fn lemma_other_link_dropped(magic: u32, other: u32, fec: bool, payload: Seq<u8>)
    requires
        magic != other,
    ensures
        parse_frame(magic, framed(other, fec, payload)) is None,
{
    let packet = framed(other, fec, payload);
    assert(packet.subrange(0, MAGIC_LEN as int) =~= u32_be(other));
    let a = u32_be(magic);
    let b = u32_be(other);
    if a == b {
        assert(a[0] == b[0] && a[1] == b[1] && a[2] == b[2] && a[3] == b[3]);
        assert(magic == other);
    }
}

} // verus!
