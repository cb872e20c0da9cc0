//! The transmit side of a link: datagrams in, framed radio packets out.

use crate::codec::byte_seqs;
use crate::fec::ConfigError;
use crate::magic_header::framed;
use crate::magic_header::MagicHeader;
use crate::tx_fec::coded_block;
use crate::tx_fec::coded_blocks;
use crate::tx_fec::config_error;
use crate::tx_fec::dynamic_config;
use crate::tx_fec::EncoderConfig;
use crate::tx_fec::EncoderState;
use crate::tx_fec::flush_step;
use crate::tx_fec::send_step;
use crate::tx_fec::static_config;
use crate::tx_fec::TXFec;
use vstd::prelude::*;

verus! {

/// Every payload with the header of the link in front.
pub open spec fn radio_packets(magic: u32, fec: bool, payloads: Seq<Seq<u8>>) -> Seq<Seq<u8>> {
    Seq::new(payloads.len(), |i: int| framed(magic, fec, payloads[i]))
}

/// What a transmitter remembers between datagrams: the state of its encoder,
/// if it has one.
pub open spec fn sent_state(
    config: Option<EncoderConfig>,
    state: Option<EncoderState>,
    datagram: Seq<u8>,
) -> Option<EncoderState> {
    match config {
        Some(config) => Some(send_step(config, state.unwrap(), datagram).0),
        None => None,
    }
}

/// The radio packets that a datagram puts on the air: without an encoder the
/// datagram itself, framed as a raw datagram; with one, the coded packets of
/// the blocks that the datagram closes, each framed as a coded fragment.
pub open spec fn sent_packets(
    magic: u32,
    config: Option<EncoderConfig>,
    state: Option<EncoderState>,
    datagram: Seq<u8>,
) -> Seq<Seq<u8>> {
    match config {
        Some(config) => radio_packets(
            magic,
            true,
            coded_blocks(config, send_step(config, state.unwrap(), datagram).1),
        ),
        None => seq![framed(magic, false, datagram)],
    }
}

/// The radio packets that a forced flush puts on the air: the coded packets
/// of the block being gathered, if there is an encoder and it has gathered
/// anything.
pub open spec fn flushed_packets(
    magic: u32,
    config: Option<EncoderConfig>,
    state: Option<EncoderState>,
) -> Seq<Seq<u8>> {
    match config {
        Some(config) => if state.unwrap().pending.len() == 0 {
            Seq::<Seq<u8>>::empty()
        } else {
            radio_packets(
                magic,
                true,
                coded_block(config, state.unwrap().block_id, state.unwrap().pending),
            )
        },
        None => Seq::<Seq<u8>>::empty(),
    }
}

/// The transmit side of a link.
pub struct Transmitter {
    fec: Option<TXFec>,
    magic_header: MagicHeader,
}

impl View for Transmitter {
    type V = Option<EncoderState>;

    closed spec fn view(&self) -> Option<EncoderState> {
        match self.fec {
            Some(fec) => Some(fec@),
            None => None,
        }
    }
}

impl Transmitter {
    /// The magic that this transmitter stamps on its packets.
    pub closed spec fn magic(&self) -> u32 {
        self.magic_header.magic
    }

    /// How the encoder of this transmitter is set up, if it has one.
    pub closed spec fn config(&self) -> Option<EncoderConfig> {
        match self.fec {
            Some(fec) => Some(fec.config()),
            None => None,
        }
    }

    /// The invariant of a transmitter: its encoder, if it has one, is well
    /// formed, and its header states what its packets carry.
    pub closed spec fn wf(&self) -> bool {
        &&& self.magic_header.fec == (self.fec is Some)
        &&& match self.fec {
            Some(fec) => fec.wf(),
            None => true,
        }
    }

    /// A transmitter for a link with the given magic. With `fec_disabled`
    /// every datagram is sent as it is and the other parameters are not
    /// looked at; otherwise they set up the encoder, which sends the
    /// parameters of every block along with its coded packets.
    pub fn new(
        magic: u32,
        fec_disabled: bool,
        min_block_size: u16,
        wifi_packet_size: u16,
        redundant_pkgs: u32,
    ) -> (made: Result<Transmitter, ConfigError>)
        ensures
            match made {
                Ok(tx) => {
                    &&& tx.wf()
                    &&& tx.magic() == magic
                    &&& tx.config() == (if fec_disabled {
                        None
                    } else {
                        Some(dynamic_config(min_block_size, wifi_packet_size, redundant_pkgs))
                    })
                    &&& !fec_disabled ==> config_error(tx.config().unwrap()) is None
                    &&& !fec_disabled ==> tx@ == Some(
                        EncoderState { block_id: 0, pending: Seq::<Seq<u8>>::empty() },
                    )
                },
                Err(e) => !fec_disabled && config_error(
                    dynamic_config(min_block_size, wifi_packet_size, redundant_pkgs),
                ) == Some(e),
            },
    {
        if fec_disabled {
            return Ok(Transmitter { fec: None, magic_header: MagicHeader::new(magic) });
        }
        match TXFec::new(min_block_size, wifi_packet_size, redundant_pkgs) {
            Ok(fec) => Ok(Transmitter { fec: Some(fec), magic_header: MagicHeader::new_fec(magic) }),
            Err(e) => Err(e),
        }
    }

    /// A transmitter with an encoder for a link on which every block has the
    /// given parameters.
    pub fn new_static(
        magic: u32,
        min_block_size: u16,
        block_size: u16,
        packet_size: u16,
        redundant_pkgs: u32,
    ) -> (made: Result<Transmitter, ConfigError>)
        ensures
            match made {
                Ok(tx) => {
                    &&& tx.wf()
                    &&& tx.magic() == magic
                    &&& tx.config() == Some(
                        static_config(min_block_size, block_size, packet_size, redundant_pkgs),
                    )
                    &&& config_error(tx.config().unwrap()) is None
                    &&& tx@ == Some(EncoderState { block_id: 0, pending: Seq::<Seq<u8>>::empty() })
                },
                Err(e) => config_error(
                    static_config(min_block_size, block_size, packet_size, redundant_pkgs),
                ) == Some(e),
            },
    {
        match TXFec::new_static(min_block_size, block_size, packet_size, redundant_pkgs) {
            Ok(fec) => Ok(Transmitter { fec: Some(fec), magic_header: MagicHeader::new_fec(magic) }),
            Err(e) => Err(e),
        }
    }

    /// Stamps every payload and appends the result to `out`.
    fn stamp_all(&self, payloads: &Vec<Vec<u8>>) -> (out: Vec<Vec<u8>>)
        ensures
            byte_seqs(out@) == radio_packets(
                self.magic_header.magic,
                self.magic_header.fec,
                byte_seqs(payloads@),
            ),
    {
        let mut out: Vec<Vec<u8>> = Vec::new();
        let mut i: usize = 0;
        while i < payloads.len()
            invariant
                i <= payloads@.len(),
                out@.len() == i,
                forall|j: int|
                    0 <= j < i ==> (#[trigger] out@[j])@ == framed(
                        self.magic_header.magic,
                        self.magic_header.fec,
                        payloads@[j]@,
                    ),
            decreases payloads@.len() - i,
        {
            out.push(self.magic_header.stamp(payloads[i].as_slice()));
            i += 1;
        }
        assert(byte_seqs(out@) =~= radio_packets(
            self.magic_header.magic,
            self.magic_header.fec,
            byte_seqs(payloads@),
        ));
        out
    }

    /// Takes one datagram and returns the radio packets to put on the air for
    /// it, in order. With an encoder there are none until a block is closed.
    pub fn send(&mut self, packet: &[u8]) -> (radio: Vec<Vec<u8>>)
        requires
            old(self).wf(),
        ensures
            final(self).wf(),
            final(self).magic() == old(self).magic(),
            final(self).config() == old(self).config(),
            final(self)@ == sent_state(old(self).config(), old(self)@, packet@),
            byte_seqs(radio@) == sent_packets(
                old(self).magic(),
                old(self).config(),
                old(self)@,
                packet@,
            ),
    {
        match &mut self.fec {
            Some(fec) => {
                let block = fec.process_packet_fec(packet);
                match block {
                    Some(block) => self.stamp_all(&block),
                    None => {
                        let radio: Vec<Vec<u8>> = Vec::new();
                        assert(byte_seqs(radio@) =~= sent_packets(
                            old(self).magic(),
                            old(self).config(),
                            old(self)@,
                            packet@,
                        ));
                        radio
                    },
                }
            },
            None => {
                let mut radio: Vec<Vec<u8>> = Vec::new();
                radio.push(self.magic_header.stamp(packet));
                assert(byte_seqs(radio@) =~= seq![
                    framed(self.magic_header.magic, false, packet@),
                ]);
                radio
            },
        }
    }

    /// Closes the block being gathered, if there is one, and returns the
    /// radio packets to put on the air for it.
    pub fn flush(&mut self) -> (radio: Vec<Vec<u8>>)
        requires
            old(self).wf(),
        ensures
            final(self).wf(),
            final(self).magic() == old(self).magic(),
            final(self).config() == old(self).config(),
            final(self)@ == (match old(self)@ {
                Some(state) => Some(flush_step(state).0),
                None => None,
            }),
            byte_seqs(radio@) == flushed_packets(
                old(self).magic(),
                old(self).config(),
                old(self)@,
            ),
    {
        match &mut self.fec {
            Some(fec) => {
                let block = fec.flush();
                match block {
                    Some(block) => self.stamp_all(&block),
                    None => {
                        let radio: Vec<Vec<u8>> = Vec::new();
                        assert(byte_seqs(radio@) =~= Seq::<Seq<u8>>::empty());
                        radio
                    },
                }
            },
            None => {
                let radio: Vec<Vec<u8>> = Vec::new();
                assert(byte_seqs(radio@) =~= Seq::<Seq<u8>>::empty());
                radio
            },
        }
    }
}

} // verus!
