//! The receive side of a link: radio packets in, datagrams out.

use crate::codec::byte_seqs;
use crate::directory::opt_byte_seqs;
use crate::fec::fixed_shape_error;
use crate::fec::ConfigError;
use crate::fec::FecMode;
use crate::magic_header::MagicHeader;
use crate::magic_header::parse_frame;
use crate::rx_fec::DecoderState;
use crate::rx_fec::initial_state;
use crate::rx_fec::receive_step;
use crate::rx_fec::RXFec;
use vstd::prelude::*;
use vstd::slice::slice_to_vec;

verus! {

/// What one radio packet does to a receiver, and what it delivers.
///
/// A packet that is not of this link is dropped. A raw datagram is delivered
/// as it is and changes nothing. A coded fragment goes to the block decoder.
pub open spec fn receive_frame(
    magic: u32,
    mode: FecMode,
    state: DecoderState,
    raw_packet: Seq<u8>,
) -> (DecoderState, Option<Seq<Seq<u8>>>) {
    match parse_frame(magic, raw_packet) {
        None => (state, None),
        Some((fec, payload)) => if fec {
            receive_step(mode, state, payload)
        } else {
            (state, Some(seq![payload]))
        },
    }
}

/// The receive side of a link.
pub struct Receiver {
    fec: RXFec,
    magic_header: MagicHeader,
}

impl View for Receiver {
    type V = DecoderState;

    closed spec fn view(&self) -> DecoderState {
        self.fec@
    }
}

impl Receiver {
    /// The magic of the link that this receiver listens to.
    pub closed spec fn magic(&self) -> u32 {
        self.magic_header.magic
    }

    /// Where the block decoder of this receiver takes block parameters from.
    pub closed spec fn mode(&self) -> FecMode {
        self.fec.mode()
    }

    /// The invariant of a receiver: that of its block decoder.
    pub closed spec fn wf(&self) -> bool {
        self.fec.wf()
    }

    /// A receiver for a link with the given magic, whose coded packets carry
    /// their block parameters.
    pub fn new(magic: u32) -> (rx: Receiver)
        ensures
            rx.wf(),
            rx.magic() == magic,
            rx.mode() == FecMode::Dynamic,
            rx@ == initial_state(),
    {
        Receiver { fec: RXFec::new(), magic_header: MagicHeader::new(magic) }
    }

    /// A receiver for a link with the given magic, on which every block has
    /// the given parameters.
    pub fn new_static(magic: u32, block_size: u16, packet_size: u16) -> (made: Result<
        Receiver,
        ConfigError,
    >)
        ensures
            match made {
                Ok(rx) => {
                    &&& rx.wf()
                    &&& rx.magic() == magic
                    &&& rx.mode() == FecMode::Static { block_size, packet_size }
                    &&& rx@ == initial_state()
                    &&& fixed_shape_error(block_size, packet_size) is None
                },
                Err(e) => fixed_shape_error(block_size, packet_size) == Some(e),
            },
    {
        match RXFec::new_static(block_size, packet_size) {
            Ok(fec) => Ok(Receiver { fec, magic_header: MagicHeader::new(magic) }),
            Err(e) => Err(e),
        }
    }

    /// Takes one radio packet. Returns the datagrams it delivers: the one it
    /// carries if it is a raw datagram, those of its block if it is a coded
    /// fragment that completes the block, and `None` otherwise.
    pub fn recv(&mut self, raw_packet: &[u8]) -> (datagrams: Option<Vec<Vec<u8>>>)
        requires
            old(self).wf(),
        ensures
            final(self).wf(),
            final(self).magic() == old(self).magic(),
            final(self).mode() == old(self).mode(),
            (final(self)@, opt_byte_seqs(datagrams)) == receive_frame(
                old(self).magic(),
                old(self).mode(),
                old(self)@,
                raw_packet@,
            ),
    {
        let (fec_pkg, wfb_packet) = match self.magic_header.from_bytes(raw_packet) {
            Some(parsed) => parsed,
            None => {
                return None;
            },
        };
        if fec_pkg {
            self.fec.process_fec_packet(wfb_packet)
        } else {
            let mut datagrams: Vec<Vec<u8>> = Vec::new();
            datagrams.push(slice_to_vec(wfb_packet));
            assert(byte_seqs(datagrams@) =~= seq![wfb_packet@]);
            Some(datagrams)
        }
    }
}

} // verus!
