//! What holds between the two ends of a link that share a magic and a mode.

use crate::fec::coded_part;
use crate::fec::FecMode;
use crate::fec::shape_of;
use crate::fec::symbol_size_for;
use crate::magic_header::begins_with_magic;
use crate::magic_header::framed;
use crate::magic_header::lemma_framing_round_trip;
use crate::rx::receive_frame;
use crate::rx_fec::accepted;
use crate::rx_fec::block_of;
use crate::rx_fec::DecoderState;
use crate::rx_fec::receive_step;
use crate::tx::sent_packets;
use crate::tx_fec::coded_for;
use crate::tx_fec::EncoderConfig;
use crate::tx_fec::EncoderState;
use crate::tx_fec::valid_config;
use vstd::prelude::*;

verus! {

/// Without an encoder, a datagram is sent as one radio packet, and a receiver
/// of the same link that gets this packet delivers exactly the datagram,
/// whatever its decoder holds, and leaves the decoder alone.
pub proof fn lemma_plain_link_round_trip(
    magic: u32,
    mode: FecMode,
    state: DecoderState,
    datagram: Seq<u8>,
)
    ensures
        sent_packets(magic, None, None, datagram).len() == 1,
        receive_frame(
            magic,
            mode,
            state,
            sent_packets(magic, None::<EncoderConfig>, None::<EncoderState>, datagram)[0],
        ) == (state, Some(seq![datagram])),
{
    lemma_framing_round_trip(magic, false, datagram);
}

/// A radio packet that does not begin with the magic of the link delivers
/// nothing and changes nothing.
pub proof fn lemma_foreign_packet_ignored(
    magic: u32,
    mode: FecMode,
    state: DecoderState,
    raw_packet: Seq<u8>,
)
    requires
        !begins_with_magic(magic, raw_packet),
    ensures
        receive_frame(magic, mode, state, raw_packet) == (state, None::<Seq<Seq<u8>>>),
{
}

/// A coded packet framed by the transmitter reaches the block decoder of a
/// receiver of the same link as it left the encoder.
pub proof fn lemma_coded_frame_reaches_decoder(
    magic: u32,
    mode: FecMode,
    state: DecoderState,
    coded: Seq<u8>,
)
    ensures
        receive_frame(magic, mode, state, framed(magic, true, coded)) == receive_step(
            mode,
            state,
            coded,
        ),
{
    lemma_framing_round_trip(magic, true, coded);
}

/// What an encoder sends for a block, a decoder in the same mode feeds to the
/// session of that block: unless the block is already marked as recovered, or
/// is in flight with another symbol size, the packet is not dropped.
pub proof fn lemma_coded_packet_is_accepted(
    config: EncoderConfig,
    id: u8,
    packet: Seq<u8>,
    state: DecoderState,
)
    requires
        valid_config(config),
        coded_for(config, id, packet),
        !state.decoded.contains(id),
        state.sessions.contains_key(id) ==> state.sessions[id].shape.symbol_size
            == symbol_size_for(config.packet_size),
    ensures
        block_of(config.mode, packet) == Some(id),
        accepted(config.mode, state, packet),
{
    let (header, coded) = coded_part(config.mode, packet).unwrap();
    assert(shape_of(header).unwrap().symbol_size == symbol_size_for(config.packet_size));
}

} // verus!
