//! The erasure code. Symbols are produced and consumed by the `raptorq` crate;
//! this module states what the rest of the library relies on when it calls it.
//! Nothing in this file is proved: every contract here is taken on trust from
//! the `raptorq` sources.

use raptorq::EncodingPacket;
use raptorq::ObjectTransmissionInformation;
use raptorq::SourceBlockDecoder;
use raptorq::SourceBlockEncoder;
use vstd::prelude::*;

verus! {

/// Bytes in front of every coded symbol: the block identifier, then the symbol
/// identifier as three bytes, most significant first.
pub const PAYLOAD_ID_LEN: usize = 4;

/// Largest number of source symbols that one block may be cut into.
pub const MAX_SOURCE_SYMBOLS: u64 = 56403;

/// Symbol numbers that the library hands to the erasure code lie below this
/// bound. The wire has room for 24-bit numbers, but the code's generator adds
/// in 32 bits without wrapping, and above three million there are numbers at
/// which, for some block sizes, its sums leave 32 bits. Below the bound, and
/// with the padding symbols of the largest block added, they do not.
pub const SYMBOL_ID_LIMIT: u64 = 1048576;

/// Number of symbols of `symbol_size` bytes needed to hold `block_length` bytes.
pub open spec fn symbol_count(block_length: int, symbol_size: int) -> int
    recommends
        symbol_size > 0,
{
    (block_length + symbol_size - 1) / symbol_size
}

/// Number of whole symbols of `symbol_size` bytes in `block`.
pub open spec fn whole_symbols(block: Seq<u8>, symbol_size: u16) -> int {
    (block.len() as int) / (symbol_size as int)
}

/// The four bytes that tag a coded symbol with its block and its number.
pub open spec fn payload_id(block_id: u8, symbol_id: int) -> Seq<u8> {
    seq![
        block_id,
        ((symbol_id / 65536) % 256) as u8,
        ((symbol_id / 256) % 256) as u8,
        (symbol_id % 256) as u8,
    ]
}

/// The coded packet that carries source symbol number `index` of `block`.
pub open spec fn source_packet(block_id: u8, symbol_size: u16, block: Seq<u8>, index: int) -> Seq<
    u8,
> {
    payload_id(block_id, index) + block.subrange(
        index * symbol_size,
        (index + 1) * symbol_size,
    )
}

/// The coded packets that carry the source symbols of `block`, in order.
pub open spec fn source_packets_of(block_id: u8, symbol_size: u16, block: Seq<u8>) -> Seq<Seq<u8>> {
    Seq::new(
        whole_symbols(block, symbol_size) as nat,
        |i: int| source_packet(block_id, symbol_size, block, i),
    )
}

/// A `Vec` of byte strings as a sequence of byte sequences.
pub open spec fn byte_seqs(v: Seq<Vec<u8>>) -> Seq<Seq<u8>> {
    Seq::new(v.len(), |i: int| v[i]@)
}

/// What an optional byte string holds.
pub open spec fn opt_bytes(v: Option<Vec<u8>>) -> Option<Seq<u8>> {
    match v {
        Some(bytes) => Some(bytes@),
        None => None,
    }
}

/// Receive-side state of one block, as kept by `raptorq`.
#[verifier::external_type_specification]
#[verifier::external_body]
pub struct ExSourceBlockDecoder(SourceBlockDecoder);

/// Transmit-side state of one block, as kept by `raptorq`.
#[verifier::external_type_specification]
#[verifier::external_body]
pub struct ExSourceBlockEncoder(SourceBlockEncoder);

/// The block identifier that a decoder was made for.
pub uninterp spec fn decoder_block_id(d: SourceBlockDecoder) -> u8;

/// The symbol size that a decoder was made for.
pub uninterp spec fn decoder_symbol_size(d: SourceBlockDecoder) -> u16;

/// The block length that a decoder was made for.
pub uninterp spec fn decoder_block_length(d: SourceBlockDecoder) -> u64;

/// The coded packets handed to a decoder so far, oldest first.
pub uninterp spec fn decoder_packets(d: SourceBlockDecoder) -> Seq<Seq<u8>>;

/// The number of the symbol that a coded packet carries: the three bytes
/// behind the block identifier, most significant first.
pub open spec fn symbol_id(packet: Seq<u8>) -> int {
    packet[1] * 65536 + packet[2] * 256 + packet[3]
}

/// The symbol numbers that occur among `packets`.
pub open spec fn symbol_ids(packets: Seq<Seq<u8>>) -> Set<int> {
    Set::new(|id: int| exists|j: int| 0 <= j < packets.len() && #[trigger] symbol_id(packets[j]) == id)
}

/// The symbol with number `id` that came first among `packets`, if one came.
pub open spec fn first_symbol(packets: Seq<Seq<u8>>, id: int) -> Option<Seq<u8>>
    decreases packets.len(),
{
    if packets.len() == 0 {
        None
    } else {
        match first_symbol(packets.drop_last(), id) {
            Some(symbol) => Some(symbol),
            None => if symbol_id(packets.last()) == id {
                Some(packets.last().skip(PAYLOAD_ID_LEN as int))
            } else {
                None
            },
        }
    }
}

/// Whether each of the first `count` symbols is among `packets`.
pub open spec fn has_all_sources(packets: Seq<Seq<u8>>, count: int) -> bool {
    forall|id: int| 0 <= id < count ==> (#[trigger] first_symbol(packets, id)) is Some
}

/// The first `count` symbols, each as it came first among `packets`, one
/// after another.
pub open spec fn gathered_sources(packets: Seq<Seq<u8>>, count: int) -> Seq<u8>
    decreases count,
{
    if count <= 0 {
        Seq::<u8>::empty()
    } else {
        gathered_sources(packets, count - 1) + first_symbol(packets, count - 1).unwrap()
    }
}

/// What the solver of a decoder made for the given block returns when the
/// decoder is handed the last of `packets`, having been handed the earlier
/// ones before, and the source symbols are not all among them. It is asked
/// only once there are as many different symbols as the block has source
/// symbols.
pub uninterp spec fn solved_block(
    block_id: u8,
    symbol_size: u16,
    block_length: u64,
    packets: Seq<Seq<u8>>,
) -> Option<Seq<u8>>;

/// What a decoder returns when it is handed the last of `packets`, having
/// been handed the earlier ones before, given what its solver would return.
///
/// With fewer different symbols than the block has source symbols there is no
/// block yet. With every source symbol at hand the block is the source
/// symbols in order, and the solver is not asked. Otherwise the solver
/// decides.
pub open spec fn decoded_block(
    symbol_size: u16,
    block_length: u64,
    packets: Seq<Seq<u8>>,
    solved: Option<Seq<u8>>,
) -> Option<Seq<u8>> {
    let count = symbol_count(block_length as int, symbol_size as int);
    if symbol_ids(packets).len() < count {
        None
    } else if has_all_sources(packets, count) {
        Some(gathered_sources(packets, count))
    } else {
        solved
    }
}

/// The block identifier that an encoder was made for.
pub uninterp spec fn encoder_block_id(e: SourceBlockEncoder) -> u8;

/// The symbol size that an encoder was made for.
pub uninterp spec fn encoder_symbol_size(e: SourceBlockEncoder) -> u16;

/// The block that an encoder was made for.
pub uninterp spec fn encoder_block(e: SourceBlockEncoder) -> Seq<u8>;

/// The `count` repair packets, starting with repair symbol number `first`, of
/// the given block.
pub uninterp spec fn repair_packets_of(
    block_id: u8,
    symbol_size: u16,
    block: Seq<u8>,
    first: u32,
    count: u32,
) -> Seq<Seq<u8>>;

/// `SourceBlockDecoder::new`, for a block that stands alone (one source block,
/// no sub-blocks, byte alignment). The decoder remembers what it was made for
/// and has seen no packet yet.
#[verifier::external_body]
pub(crate) fn new_decoder(block_id: u8, symbol_size: u16, block_length: u64) -> (d:
    SourceBlockDecoder)
    requires
        symbol_size > 0,
        symbol_count(block_length as int, symbol_size as int) <= MAX_SOURCE_SYMBOLS,
    ensures
        decoder_block_id(d) == block_id,
        decoder_symbol_size(d) == symbol_size,
        decoder_block_length(d) == block_length,
        decoder_packets(d) == Seq::<Seq<u8>>::empty(),
{
    let config = ObjectTransmissionInformation::new(block_length, symbol_size, 1, 1, 1);
    SourceBlockDecoder::new(block_id, &config, block_length)
}

/// `SourceBlockDecoder::decode` on one serialized packet. The packet must be
/// tagged with the decoder's block, carry a symbol of the decoder's size and a
/// symbol number below the bound. It joins the packets that the decoder
/// holds. The decoder returns nothing while it has seen fewer different
/// symbols than the block has source symbols; it returns the source symbols in
/// order once it has seen them all; in between it asks its solver.
#[verifier::external_body]
pub(crate) fn feed_decoder(d: &mut SourceBlockDecoder, packet: &[u8]) -> (block: Option<Vec<u8>>)
    requires
        packet@.len() == PAYLOAD_ID_LEN + decoder_symbol_size(*old(d)),
        packet@[0] == decoder_block_id(*old(d)),
        symbol_id(packet@) < SYMBOL_ID_LIMIT,
    ensures
        decoder_block_id(*final(d)) == decoder_block_id(*old(d)),
        decoder_symbol_size(*final(d)) == decoder_symbol_size(*old(d)),
        decoder_block_length(*final(d)) == decoder_block_length(*old(d)),
        decoder_packets(*final(d)) == decoder_packets(*old(d)).push(packet@),
        opt_bytes(block) == decoded_block(
            decoder_symbol_size(*old(d)),
            decoder_block_length(*old(d)),
            decoder_packets(*old(d)).push(packet@),
            solved_block(
                decoder_block_id(*old(d)),
                decoder_symbol_size(*old(d)),
                decoder_block_length(*old(d)),
                decoder_packets(*old(d)).push(packet@),
            ),
        ),
{
    d.decode(std::iter::once(EncodingPacket::deserialize(packet)))
}

/// `SourceBlockEncoder::new`, for a block that stands alone (one source block,
/// no sub-blocks, byte alignment). The block must be a whole number of symbols.
#[verifier::external_body]
pub(crate) fn new_encoder(block_id: u8, symbol_size: u16, block: &[u8]) -> (e: SourceBlockEncoder)
    requires
        symbol_size > 0,
        block@.len() > 0,
        (block@.len() as int) % (symbol_size as int) == 0,
        whole_symbols(block@, symbol_size) <= MAX_SOURCE_SYMBOLS,
    ensures
        encoder_block_id(e) == block_id,
        encoder_symbol_size(e) == symbol_size,
        encoder_block(e) == block@,
{
    let config = ObjectTransmissionInformation::new(block.len() as u64, symbol_size, 1, 1, 1);
    SourceBlockEncoder::new(block_id, &config, block)
}

/// `SourceBlockEncoder::source_packets`, each packet serialized. The code is
/// systematic: packet number `i` is its tag followed by the `i`-th slice of the
/// block.
#[verifier::external_body]
pub(crate) fn source_packets(e: &SourceBlockEncoder) -> (packets: Vec<Vec<u8>>)
    ensures
        packets@.len() == whole_symbols(encoder_block(*e), encoder_symbol_size(*e)),
        forall|i: int|
            0 <= i < packets@.len() ==> (#[trigger] packets@[i])@ == source_packet(
                encoder_block_id(*e),
                encoder_symbol_size(*e),
                encoder_block(*e),
                i,
            ),
{
    e.source_packets().iter().map(|p| p.serialize()).collect()
}

/// `SourceBlockEncoder::repair_packets`, each packet serialized. Every repair
/// packet is as long as a source packet; they are numbered on from the source
/// symbols, and the numbers must stay below the bound.
#[verifier::external_body]
pub(crate) fn repair_packets(e: &SourceBlockEncoder, first: u32, count: u32) -> (packets: Vec<
    Vec<u8>,
>)
    requires
        whole_symbols(encoder_block(*e), encoder_symbol_size(*e)) + first + count
            <= SYMBOL_ID_LIMIT,
    ensures
        byte_seqs(packets@) == repair_packets_of(
            encoder_block_id(*e),
            encoder_symbol_size(*e),
            encoder_block(*e),
            first,
            count,
        ),
        packets@.len() == count,
        forall|i: int|
            0 <= i < packets@.len() ==> {
                &&& (#[trigger] packets@[i])@.len() == PAYLOAD_ID_LEN + encoder_symbol_size(*e)
                &&& packets@[i]@.subrange(0, PAYLOAD_ID_LEN as int) == payload_id(
                    encoder_block_id(*e),
                    whole_symbols(encoder_block(*e), encoder_symbol_size(*e)) + first + i,
                )
            },
{
    e.repair_packets(first, count).iter().map(|p| p.serialize()).collect()
}

} // verus!
