//! Parameters of a coded block: how they travel with each coded packet, and
//! how the symbol size and the padded block length follow from them.

use crate::bytes::append_u16_le;
use crate::bytes::read_u16_le;
use crate::bytes::u16_from_le;
use crate::bytes::u16_le;
use crate::codec::MAX_SOURCE_SYMBOLS;
use crate::codec::PAYLOAD_ID_LEN;
use crate::codec::symbol_count;
use vstd::prelude::*;
use vstd::slice::slice_subrange;

verus! {

/// Bytes taken by the per-packet block parameters.
pub const FEC_HEADER_LEN: usize = 4;

/// Bytes of the smallest block: the directory of one empty datagram.
pub const MIN_BLOCK_SIZE: u16 = 5;

/// Where the two ends of a link get the parameters of a block from.
#[derive(Clone, Copy, Debug, PartialEq, Eq, Structural)]
pub enum FecMode {
    /// Every block has the same parameters, agreed on beforehand.
    Static { block_size: u16, packet_size: u16 },
    /// Every coded packet carries the parameters of its block.
    Dynamic,
}

/// Parameters of one block: its length in bytes before padding, and the size
/// of the coded packets it is sent in.
#[derive(Clone, Copy, Debug, PartialEq, Eq, Structural)]
pub struct FecHeader {
    pub block_size: u16,
    pub packet_size: u16,
}

/// The erasure code's view of a block: the size of one symbol, and the length
/// of the block once padded to a whole number of symbols.
#[derive(Clone, Copy, Debug, PartialEq, Eq, Structural)]
pub struct BlockShape {
    pub symbol_size: u16,
    pub block_length: u64,
}

/// Why a configuration was turned down.
#[derive(Clone, Copy, Debug, PartialEq, Eq, Structural)]
pub enum ConfigError {
    /// The packet size leaves no room for a symbol behind the symbol's tag.
    PacketSizeTooSmall,
    /// The fixed block size cannot hold even one empty datagram.
    BlockSizeTooSmall,
    /// The block would be cut into more symbols than the code allows.
    TooManySymbols,
    /// Source and repair symbols together would run out of symbol numbers.
    TooManyRepairSymbols,
}

/// What is said of a configuration that was turned down.
pub open spec fn config_error_text(error: ConfigError) -> Seq<char> {
    match error {
        ConfigError::PacketSizeTooSmall => "packet size leaves no room for a symbol"@,
        ConfigError::BlockSizeTooSmall => "block size cannot hold a directory"@,
        ConfigError::TooManySymbols => "block takes more symbols than the code allows"@,
        ConfigError::TooManyRepairSymbols => "more repair symbols than symbol numbers"@,
    }
}

impl ConfigError {
    /// The error in words.
    pub fn message(&self) -> (text: String)
        ensures
            text@ == config_error_text(*self),
    {
        match self {
            ConfigError::PacketSizeTooSmall => "packet size leaves no room for a symbol".to_string(),
            ConfigError::BlockSizeTooSmall => "block size cannot hold a directory".to_string(),
            ConfigError::TooManySymbols => "block takes more symbols than the code allows".to_string(),
            ConfigError::TooManyRepairSymbols => "more repair symbols than symbol numbers".to_string(),
        }
    }
}

/// The header as it goes on the wire: both numbers, least significant byte first.
pub open spec fn fec_header_bytes(header: FecHeader) -> Seq<u8> {
    u16_le(header.block_size) + u16_le(header.packet_size)
}

/// Splits the block parameters off the front of a packet, if it is long enough.
pub open spec fn parse_fec_header(bytes: Seq<u8>) -> Option<(FecHeader, Seq<u8>)> {
    if bytes.len() >= FEC_HEADER_LEN {
        Some(
            (
                FecHeader {
                    block_size: u16_from_le(bytes[0], bytes[1]),
                    packet_size: u16_from_le(bytes[2], bytes[3]),
                },
                bytes.subrange(FEC_HEADER_LEN as int, bytes.len() as int),
            ),
        )
    } else {
        None
    }
}

/// What `FecHeader::from_bytes` returns, as plain values.
pub open spec fn parsed_header_view(parsed: Option<(FecHeader, &[u8])>) -> Option<
    (FecHeader, Seq<u8>),
> {
    match parsed {
        Some((header, rest)) => Some((header, rest@)),
        None => None,
    }
}

/// The parameters of a packet's block and the coded part of the packet: read
/// from its front in dynamic mode, the agreed ones and the whole packet in
/// static mode.
pub open spec fn coded_part(mode: FecMode, packet: Seq<u8>) -> Option<(FecHeader, Seq<u8>)> {
    match mode {
        FecMode::Static { block_size, packet_size } => Some(
            (FecHeader { block_size, packet_size }, packet),
        ),
        FecMode::Dynamic => parse_fec_header(packet),
    }
}

/// What goes in front of each coded packet of a block: its parameters in
/// dynamic mode, nothing in static mode.
pub open spec fn coded_prefix(mode: FecMode, header: FecHeader) -> Seq<u8> {
    match mode {
        FecMode::Static { .. } => Seq::<u8>::empty(),
        FecMode::Dynamic => fec_header_bytes(header),
    }
}

/// Bytes of symbol in a coded packet of the given size: what the tag leaves.
pub open spec fn symbol_size_for(packet_size: u16) -> int {
    packet_size - PAYLOAD_ID_LEN
}

/// Zero bytes needed to fill the last symbol of a block of `block_size` bytes.
pub open spec fn padding_for(block_size: int, symbol_size: int) -> int
    recommends
        symbol_size > 0,
{
    symbol_count(block_size, symbol_size) * symbol_size - block_size
}

/// The shape of a block with the given parameters. There is none if the
/// packets are too small to hold a symbol, if the block is empty, or if it
/// would take more symbols than the code allows.
pub open spec fn shape_of(header: FecHeader) -> Option<BlockShape> {
    let symbol_size = symbol_size_for(header.packet_size);
    if symbol_size > 0 && header.block_size > 0 && symbol_count(
        header.block_size as int,
        symbol_size,
    ) <= MAX_SOURCE_SYMBOLS {
        Some(
            BlockShape {
                symbol_size: symbol_size as u16,
                block_length: (header.block_size + padding_for(
                    header.block_size as int,
                    symbol_size,
                )) as u64,
            },
        )
    } else {
        None
    }
}

impl FecHeader {
    pub fn new(block_size: u16, packet_size: u16) -> (header: FecHeader)
        ensures
            header.block_size == block_size,
            header.packet_size == packet_size,
    {
        FecHeader { block_size, packet_size }
    }

    /// The header as it goes on the wire.
    pub fn to_bytes(&self) -> (bytes: Vec<u8>)
        ensures
            bytes@ == fec_header_bytes(*self),
    {
        let mut bytes: Vec<u8> = Vec::new();
        append_u16_le(&mut bytes, self.block_size);
        append_u16_le(&mut bytes, self.packet_size);
        assert(bytes@ =~= fec_header_bytes(*self));
        bytes
    }

    /// Splits the header off the front of a packet. A packet shorter than the
    /// header gives `None`.
    pub fn from_bytes<'a>(bytes: &'a [u8]) -> (parsed: Option<(FecHeader, &'a [u8])>)
        ensures
            parsed_header_view(parsed) == parse_fec_header(bytes@),
    {
        if bytes.len() < FEC_HEADER_LEN {
            return None;
        }
        let block_size = read_u16_le(bytes, 0);
        let packet_size = read_u16_le(bytes, 2);
        let rest = slice_subrange(bytes, FEC_HEADER_LEN, bytes.len());
        Some((FecHeader { block_size, packet_size }, rest))
    }

    /// The shape of the block that this header describes, if it describes one.
    pub fn shape(&self) -> (shape: Option<BlockShape>)
        ensures
            shape == shape_of(*self),
            shape is Some ==> shape_is_sound(shape.unwrap()),
    {
        if self.packet_size <= PAYLOAD_ID_LEN as u16 || self.block_size == 0 {
            return None;
        }
        let symbol_size: u16 = self.packet_size - PAYLOAD_ID_LEN as u16;
        let block: u64 = self.block_size as u64;
        let size: u64 = symbol_size as u64;
        let symbols: u64 = (block + size - 1) / size;
        if symbols > MAX_SOURCE_SYMBOLS {
            return None;
        }
        proof {
            lemma_whole_symbols(block as int, size as int);
        }
        Some(BlockShape { symbol_size, block_length: symbols * size })
    }
}

/// Why block parameters agreed on beforehand are turned down, if they are.
pub open spec fn fixed_shape_error(block_size: u16, packet_size: u16) -> Option<ConfigError> {
    if packet_size <= PAYLOAD_ID_LEN {
        Some(ConfigError::PacketSizeTooSmall)
    } else if block_size < MIN_BLOCK_SIZE {
        Some(ConfigError::BlockSizeTooSmall)
    } else if shape_of(FecHeader { block_size, packet_size }) is None {
        Some(ConfigError::TooManySymbols)
    } else {
        None
    }
}

/// Looks at block parameters that a link is to agree on.
pub fn check_fixed_shape(block_size: u16, packet_size: u16) -> (error: Option<ConfigError>)
    ensures
        error == fixed_shape_error(block_size, packet_size),
{
    if packet_size <= PAYLOAD_ID_LEN as u16 {
        Some(ConfigError::PacketSizeTooSmall)
    } else if block_size < MIN_BLOCK_SIZE {
        Some(ConfigError::BlockSizeTooSmall)
    } else if FecHeader::new(block_size, packet_size).shape().is_none() {
        Some(ConfigError::TooManySymbols)
    } else {
        None
    }
}

/// What the erasure code asks of a shape: symbols are not empty, the block is
/// a whole number of them, and not more than the code allows.
pub open spec fn shape_is_sound(shape: BlockShape) -> bool {
    &&& shape.symbol_size > 0
    &&& shape.block_length > 0
    &&& shape.block_length % (shape.symbol_size as u64) == 0
    &&& symbol_count(shape.block_length as int, shape.symbol_size as int) <= MAX_SOURCE_SYMBOLS
    &&& shape.block_length / (shape.symbol_size as u64) <= MAX_SOURCE_SYMBOLS
}

/// Rounding a length up to whole symbols: the padded length is a multiple of
/// the symbol size, holds the length, adds less than one symbol, and takes as
/// many symbols as the length did.
pub proof fn lemma_whole_symbols(length: int, symbol_size: int)
    requires
        length >= 0,
        symbol_size > 0,
    ensures
        0 <= padding_for(length, symbol_size) < symbol_size,
        (length + padding_for(length, symbol_size)) % symbol_size == 0,
        (length + padding_for(length, symbol_size)) / symbol_size == symbol_count(
            length,
            symbol_size,
        ),
        symbol_count(length + padding_for(length, symbol_size), symbol_size) == symbol_count(
            length,
            symbol_size,
        ),
        length > 0 ==> symbol_count(length, symbol_size) > 0,
{
    let k = symbol_count(length, symbol_size);
    assert(k == (length + symbol_size - 1) / symbol_size);
    assert(0 <= k * symbol_size - length < symbol_size && (length > 0 ==> k > 0)) by (nonlinear_arith)
        requires
            k == (length + symbol_size - 1) / symbol_size,
            length >= 0,
            symbol_size > 0,
    ;
    let padded = k * symbol_size;
    assert(padded % symbol_size == 0 && padded / symbol_size == k) by (nonlinear_arith)
        requires
            padded == k * symbol_size,
            symbol_size > 0,
    ;
    assert((padded + symbol_size - 1) / symbol_size == k) by (nonlinear_arith)
        requires
            padded == k * symbol_size,
            symbol_size > 0,
    ;
}

/// Writing a header and reading it back gives the header and what followed it.
pub proof fn lemma_fec_header_round_trip(header: FecHeader, rest: Seq<u8>)
    ensures
        parse_fec_header(fec_header_bytes(header) + rest) == Some((header, rest)),
{
    let bytes = fec_header_bytes(header) + rest;
    assert(bytes.subrange(FEC_HEADER_LEN as int, bytes.len() as int) =~= rest);
}

/// In either mode, a coded packet with its prefix in front is read back as the
/// block's parameters and the coded packet.
pub proof fn lemma_coded_prefix_round_trip(mode: FecMode, header: FecHeader, coded: Seq<u8>)
    requires
        match mode {
            FecMode::Static { block_size, packet_size } => header == (FecHeader {
                block_size,
                packet_size,
            }),
            FecMode::Dynamic => true,
        },
    ensures
        coded_part(mode, coded_prefix(mode, header) + coded) == Some((header, coded)),
{
    match mode {
        FecMode::Static { .. } => {
            assert(Seq::<u8>::empty() + coded =~= coded);
        },
        FecMode::Dynamic => {
            lemma_fec_header_round_trip(header, coded);
        },
    }
}

} // verus!
