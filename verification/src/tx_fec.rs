//! The block encoder: datagrams are gathered into a block, the block is
//! closed with its directory once it is large enough, and sent as coded
//! packets.

use crate::block_id::next_id;
use crate::bytes::append_bytes;
use crate::bytes::append_zeros;
use crate::bytes::copy_range;
use crate::codec::byte_seqs;
use crate::codec::MAX_SOURCE_SYMBOLS;
use crate::codec::new_encoder;
use crate::codec::payload_id;
use crate::codec::PAYLOAD_ID_LEN;
use crate::codec::repair_packets;
use crate::codec::repair_packets_of;
use crate::codec::source_packets;
use crate::codec::source_packets_of;
use crate::codec::symbol_count;
use crate::codec::symbol_id;
use crate::codec::SYMBOL_ID_LIMIT;
use crate::codec::whole_symbols;
use crate::directory::append_directory;
use crate::directory::block_bytes;
use crate::directory::boundaries;
use crate::directory::concat;
use crate::directory::content_len;
use crate::directory::lemma_block_len;
use crate::directory::lemma_concat_push;
use crate::directory::listable;
use crate::directory::MAX_DATAGRAMS;
use crate::directory::MAX_OFFSET;
use crate::directory::opt_byte_seqs;
use crate::fec::check_fixed_shape;
use crate::fec::coded_part;
use crate::fec::coded_prefix;
use crate::fec::fixed_shape_error;
use crate::fec::BlockShape;
use crate::fec::ConfigError;
use crate::fec::FecHeader;
use crate::fec::FecMode;
use crate::fec::MIN_BLOCK_SIZE;
use crate::fec::lemma_coded_prefix_round_trip;
use crate::fec::lemma_whole_symbols;
use crate::fec::padding_for;
use crate::fec::shape_of;
use crate::fec::symbol_size_for;
use crate::recovery::lemma_source_packet;
use crate::recovery::whole_block;
use vstd::prelude::*;

verus! {

/// Most repair symbols per block: what the symbol numbers leave when a block
/// has as many source symbols as the code allows.
pub const MAX_REPAIR_SYMBOLS: u32 = 992173;

/// How an encoder is set up.
#[derive(Clone, Copy, Debug, PartialEq, Eq, Structural)]
pub struct EncoderConfig {
    /// Where the receiver gets the parameters of a block from.
    pub mode: FecMode,
    /// Datagram bytes at which a block is closed.
    pub min_block_size: u16,
    /// Size of a coded packet: the symbol's tag and the symbol.
    pub packet_size: u16,
    /// Repair symbols sent with every block.
    pub redundant_pkgs: u32,
}

/// What an encoder remembers between datagrams: the identifier of the block it
/// is gathering, and the datagrams gathered for it.
pub struct EncoderState {
    pub block_id: u8,
    pub pending: Seq<Seq<u8>>,
}

/// A block that the encoder has closed.
pub struct ClosedBlock {
    pub id: u8,
    pub datagrams: Seq<Seq<u8>>,
}

/// Why a configuration is turned down, if it is.
pub open spec fn config_error(config: EncoderConfig) -> Option<ConfigError> {
    if config.packet_size <= PAYLOAD_ID_LEN {
        Some(ConfigError::PacketSizeTooSmall)
    } else if config.redundant_pkgs > MAX_REPAIR_SYMBOLS {
        Some(ConfigError::TooManyRepairSymbols)
    } else {
        match config.mode {
            FecMode::Dynamic => None,
            FecMode::Static { block_size, packet_size } => fixed_shape_error(
                block_size,
                packet_size,
            ),
        }
    }
}

/// Whether an encoder can be set up this way. In static mode the coded
/// packets have the size that the link agreed on.
pub open spec fn valid_config(config: EncoderConfig) -> bool {
    &&& config_error(config) is None
    &&& match config.mode {
        FecMode::Dynamic => true,
        FecMode::Static { block_size, packet_size } => packet_size == config.packet_size,
    }
}

/// Most bytes, datagrams and directory together, that a block can hold: the
/// agreed block size in static mode; in dynamic mode what a 16-bit length can
/// state and the code can cut into symbols.
pub open spec fn capacity(config: EncoderConfig) -> int {
    match config.mode {
        FecMode::Static { block_size, packet_size } => block_size as int,
        FecMode::Dynamic => if MAX_SOURCE_SYMBOLS * symbol_size_for(config.packet_size)
            < MAX_OFFSET {
            MAX_SOURCE_SYMBOLS * symbol_size_for(config.packet_size)
        } else {
            MAX_OFFSET as int
        },
    }
}

/// The parameters of a block of these datagrams: the agreed ones in static
/// mode, the length of the datagrams and their directory otherwise.
pub open spec fn block_header(config: EncoderConfig, datagrams: Seq<Seq<u8>>) -> FecHeader {
    match config.mode {
        FecMode::Static { block_size, packet_size } => FecHeader { block_size, packet_size },
        FecMode::Dynamic => FecHeader {
            block_size: content_len(datagrams) as u16,
            packet_size: config.packet_size,
        },
    }
}

/// Zero bytes between the datagrams and the directory of a block: what fills
/// the block up to its stated length, and that up to whole symbols.
pub open spec fn block_padding(config: EncoderConfig, datagrams: Seq<Seq<u8>>) -> int {
    let stated = block_header(config, datagrams).block_size as int;
    stated - content_len(datagrams) + padding_for(stated, symbol_size_for(config.packet_size))
}

/// The bytes of a block of these datagrams, as handed to the erasure code.
pub open spec fn padded_block(config: EncoderConfig, datagrams: Seq<Seq<u8>>) -> Seq<u8> {
    block_bytes(datagrams, block_padding(config, datagrams))
}

/// Every packet of `packets` with `prefix` in front.
pub open spec fn with_prefix(prefix: Seq<u8>, packets: Seq<Seq<u8>>) -> Seq<Seq<u8>> {
    Seq::new(packets.len(), |i: int| prefix + packets[i])
}

/// The coded packets of one block: first every source symbol, then the repair
/// symbols, each tagged with the block identifier and, in dynamic mode, with
/// the block's parameters in front.
pub open spec fn coded_block(config: EncoderConfig, id: u8, datagrams: Seq<Seq<u8>>) -> Seq<
    Seq<u8>,
> {
    let block = padded_block(config, datagrams);
    let symbol_size = symbol_size_for(config.packet_size) as u16;
    with_prefix(
        coded_prefix(config.mode, block_header(config, datagrams)),
        source_packets_of(id, symbol_size, block) + repair_packets_of(
            id,
            symbol_size,
            block,
            0,
            config.redundant_pkgs,
        ),
    )
}

/// The coded packets of several blocks, block after block.
pub open spec fn coded_blocks(config: EncoderConfig, blocks: Seq<ClosedBlock>) -> Seq<Seq<u8>>
    decreases blocks.len(),
{
    if blocks.len() == 0 {
        Seq::<Seq<u8>>::empty()
    } else {
        coded_blocks(config, blocks.drop_last()) + coded_block(
            config,
            blocks.last().id,
            blocks.last().datagrams,
        )
    }
}

/// Whether a block that holds `pending` has room for `datagram` as well.
pub open spec fn fits(config: EncoderConfig, pending: Seq<Seq<u8>>, datagram: Seq<u8>) -> bool {
    content_len(pending.push(datagram)) <= capacity(config)
}

/// Whether a block that holds `pending` is to be closed: it has reached the
/// minimum block size, or its directory is full.
pub open spec fn full(config: EncoderConfig, pending: Seq<Seq<u8>>) -> bool {
    concat(pending).len() >= config.min_block_size || pending.len() >= MAX_DATAGRAMS
}

/// Closing the block being gathered. With nothing gathered, nothing happens.
pub open spec fn flush_step(state: EncoderState) -> (EncoderState, Seq<ClosedBlock>) {
    if state.pending.len() == 0 {
        (state, Seq::<ClosedBlock>::empty())
    } else {
        (
            EncoderState { block_id: next_id(state.block_id), pending: Seq::<Seq<u8>>::empty() },
            seq![ClosedBlock { id: state.block_id, datagrams: state.pending }],
        )
    }
}

/// What one datagram does to an encoder, and the blocks it closes.
///
/// A datagram that no block can hold is dropped. If the block being gathered
/// has no room for the datagram, it is closed first. The datagram then joins
/// the block being gathered, and that block is closed if it is now full.
pub open spec fn send_step(config: EncoderConfig, state: EncoderState, datagram: Seq<u8>) -> (
    EncoderState,
    Seq<ClosedBlock>,
) {
    if !fits(config, Seq::<Seq<u8>>::empty(), datagram) {
        (state, Seq::<ClosedBlock>::empty())
    } else {
        let (made_room, early) = if fits(config, state.pending, datagram) {
            (state, Seq::<ClosedBlock>::empty())
        } else {
            flush_step(state)
        };
        let joined = EncoderState {
            block_id: made_room.block_id,
            pending: made_room.pending.push(datagram),
        };
        if full(config, joined.pending) {
            (flush_step(joined).0, early + flush_step(joined).1)
        } else {
            (joined, early)
        }
    }
}

/// Whether `packet` reads, in the encoder's mode, as one tagged symbol of
/// block `id` with parameters that describe a block.
pub open spec fn coded_for(config: EncoderConfig, id: u8, packet: Seq<u8>) -> bool {
    match coded_part(config.mode, packet) {
        Some((header, coded)) => {
            &&& header.packet_size == config.packet_size
            &&& shape_of(header) is Some
            &&& coded.len() == config.packet_size
            &&& coded[0] == id
            &&& symbol_id(coded) < SYMBOL_ID_LIMIT
        },
        None => false,
    }
}

/// The transmit side of the erasure code.
pub struct TXFec {
    config: EncoderConfig,
    block_buffer: Vec<u8>,
    pkg_indices: Vec<u16>,
    block_id: u8,
    pending: Ghost<Seq<Seq<u8>>>,
}

impl View for TXFec {
    type V = EncoderState;

    closed spec fn view(&self) -> EncoderState {
        EncoderState { block_id: self.block_id, pending: self.pending@ }
    }
}

impl TXFec {
    /// How this encoder was set up.
    pub closed spec fn config(&self) -> EncoderConfig {
        self.config
    }

    /// The buffer holds the datagrams gathered, the offsets are their
    /// boundaries, and the block they make has room in the configuration.
    spec fn consistent(&self) -> bool {
        &&& valid_config(self.config)
        &&& self.block_buffer@ == concat(self.pending@)
        &&& self.pkg_indices@ == boundaries(self.pending@)
        &&& self.pending@.len() <= MAX_DATAGRAMS
        &&& content_len(self.pending@) <= capacity(self.config)
    }

    /// The invariant of an encoder between datagrams: its parts agree, and a
    /// block that is full does not stay open.
    pub closed spec fn wf(&self) -> bool {
        &&& self.consistent()
        &&& self.pending@.len() > 0 ==> !full(self.config, self.pending@)
    }

    /// An encoder that starts at block 0 with nothing gathered.
    fn with_config(config: EncoderConfig) -> (tx: TXFec)
        requires
            valid_config(config),
        ensures
            tx.wf(),
            tx.config() == config,
            tx@.block_id == 0,
            tx@.pending == Seq::<Seq<u8>>::empty(),
    {
        let mut pkg_indices: Vec<u16> = Vec::new();
        pkg_indices.push(0);
        let tx = TXFec {
            config,
            block_buffer: Vec::new(),
            pkg_indices,
            block_id: 0,
            pending: Ghost(Seq::<Seq<u8>>::empty()),
        };
        proof {
            let none = Seq::<Seq<u8>>::empty();
            assert(none.take(0) =~= none);
            assert(tx.pkg_indices@ =~= boundaries(none));
            assert(tx.block_buffer@ =~= concat(none));
            lemma_capacity(config);
        }
        tx
    }

    /// An encoder for a link whose coded packets carry their block
    /// parameters. `wifi_packet_size` is the size of a coded packet without
    /// those parameters.
    pub fn new(min_block_size: u16, wifi_packet_size: u16, redundant_pkgs: u32) -> (made: Result<
        TXFec,
        ConfigError,
    >)
        ensures
            match made {
                Ok(tx) => {
                    &&& tx.wf()
                    &&& tx.config() == dynamic_config(
                        min_block_size,
                        wifi_packet_size,
                        redundant_pkgs,
                    )
                    &&& config_error(tx.config()) is None
                    &&& tx@.block_id == 0
                    &&& tx@.pending == Seq::<Seq<u8>>::empty()
                },
                Err(e) => config_error(
                    dynamic_config(min_block_size, wifi_packet_size, redundant_pkgs),
                ) == Some(e),
            },
    {
        if wifi_packet_size <= PAYLOAD_ID_LEN as u16 {
            return Err(ConfigError::PacketSizeTooSmall);
        }
        if redundant_pkgs > MAX_REPAIR_SYMBOLS {
            return Err(ConfigError::TooManyRepairSymbols);
        }
        Ok(
            TXFec::with_config(
                EncoderConfig {
                    mode: FecMode::Dynamic,
                    min_block_size,
                    packet_size: wifi_packet_size,
                    redundant_pkgs,
                },
            ),
        )
    }

    /// An encoder for a link on which every block has the given parameters.
    pub fn new_static(
        min_block_size: u16,
        block_size: u16,
        packet_size: u16,
        redundant_pkgs: u32,
    ) -> (made: Result<TXFec, ConfigError>)
        ensures
            match made {
                Ok(tx) => {
                    &&& tx.wf()
                    &&& tx.config() == static_config(
                        min_block_size,
                        block_size,
                        packet_size,
                        redundant_pkgs,
                    )
                    &&& config_error(tx.config()) is None
                    &&& tx@.block_id == 0
                    &&& tx@.pending == Seq::<Seq<u8>>::empty()
                },
                Err(e) => config_error(
                    static_config(min_block_size, block_size, packet_size, redundant_pkgs),
                ) == Some(e),
            },
    {
        if packet_size <= PAYLOAD_ID_LEN as u16 {
            return Err(ConfigError::PacketSizeTooSmall);
        }
        if redundant_pkgs > MAX_REPAIR_SYMBOLS {
            return Err(ConfigError::TooManyRepairSymbols);
        }
        match check_fixed_shape(block_size, packet_size) {
            Some(e) => {
                return Err(e);
            },
            None => {},
        }
        Ok(
            TXFec::with_config(
                EncoderConfig {
                    mode: FecMode::Static { block_size, packet_size },
                    min_block_size,
                    packet_size,
                    redundant_pkgs,
                },
            ),
        )
    }

    /// The identifier of the block being gathered.
    pub fn block_id(&self) -> (id: u8)
        ensures
            id == self@.block_id,
    {
        self.block_id
    }

    /// How many datagrams the block being gathered holds.
    pub fn pending_count(&self) -> (count: usize)
        requires
            self.wf(),
        ensures
            count == self@.pending.len(),
    {
        self.pkg_indices.len() - 1
    }

    /// How many datagram bytes the block being gathered holds.
    pub fn pending_bytes(&self) -> (count: usize)
        requires
            self.wf(),
        ensures
            count == concat(self@.pending).len(),
    {
        self.block_buffer.len()
    }

    /// Most bytes that a block of this encoder can hold.
    fn capacity(&self) -> (bytes: usize)
        requires
            valid_config(self.config),
        ensures
            bytes == capacity(self.config),
            MIN_BLOCK_SIZE <= bytes <= MAX_OFFSET,
    {
        proof {
            lemma_capacity(self.config);
        }
        match self.config.mode {
            FecMode::Static { block_size, packet_size } => block_size as usize,
            FecMode::Dynamic => {
                let symbol_size: u64 = (self.config.packet_size - PAYLOAD_ID_LEN as u16) as u64;
                let most: u64 = MAX_SOURCE_SYMBOLS * symbol_size;
                if most < MAX_OFFSET as u64 {
                    most as usize
                } else {
                    MAX_OFFSET
                }
            },
        }
    }

    /// Adds a datagram to the block being gathered.
    fn push_datagram(&mut self, packet: &[u8])
        requires
            old(self).consistent(),
            old(self).pending@.len() < MAX_DATAGRAMS,
            fits(old(self).config, old(self).pending@, packet@),
        ensures
            final(self).consistent(),
            final(self).config == old(self).config,
            final(self).block_id == old(self).block_id,
            final(self).pending@ == old(self).pending@.push(packet@),
    {
        let ghost before = self.pending@;
        let ghost after = before.push(packet@);
        proof {
            lemma_concat_push(before, packet@);
            lemma_capacity(self.config);
        }
        append_bytes(&mut self.block_buffer, packet);
        let end: usize = self.block_buffer.len();
        self.pkg_indices.push(end as u16);
        self.pending = Ghost(after);
        proof {
            assert forall|i: int| 0 <= i < after.len() + 1 implies self.pkg_indices@[i]
                == boundaries(after)[i] by {
                if i < after.len() {
                    assert(after.take(i) =~= before.take(i));
                } else {
                    assert(after.take(i) =~= after);
                }
            }
            assert(self.pkg_indices@ =~= boundaries(after));
        }
    }

    /// The block of the datagrams gathered, padded and with its directory, and
    /// its parameters.
    fn assemble_block(&self) -> (built: (FecHeader, BlockShape, Vec<u8>))
        requires
            self.consistent(),
            self.pending@.len() > 0,
        ensures
            built.0 == block_header(self.config, self.pending@),
            Some(built.1) == shape_of(built.0),
            built.1.symbol_size == symbol_size_for(self.config.packet_size),
            built.2@ == padded_block(self.config, self.pending@),
    {
        let ghost datagrams = self.pending@;
        let ghost config = self.config;
        let count: usize = self.pkg_indices.len();
        let content: usize = self.block_buffer.len() + 2 * count + 1;
        proof {
            lemma_capacity(config);
            lemma_block_shape(config, datagrams);
        }
        let stated: u16 = match self.config.mode {
            FecMode::Static { block_size, packet_size } => block_size,
            FecMode::Dynamic => content as u16,
        };
        let header = FecHeader::new(stated, self.config.packet_size);
        let shape = header.shape().unwrap();
        let padded: usize = shape.block_length as usize;
        let mut block = copy_range(self.block_buffer.as_slice(), 0, self.block_buffer.len());
        assert(block@ =~= concat(datagrams));
        append_zeros(&mut block, padded - content);
        append_directory(&mut block, &self.pkg_indices);
        (header, shape, block)
    }

    /// Closes the block being gathered: pads it, appends its directory, has it
    /// coded, appends its coded packets to `out` and moves on to the next
    /// block identifier.
    fn close_block(&mut self, out: &mut Vec<Vec<u8>>)
        requires
            old(self).consistent(),
            old(self).pending@.len() > 0,
        ensures
            final(self).consistent(),
            final(self).config == old(self).config,
            final(self)@ == flush_step(old(self)@).0,
            byte_seqs(final(out)@) == byte_seqs(old(out)@) + coded_block(
                old(self).config,
                old(self).block_id,
                old(self).pending@,
            ),
            final(out)@.len() == old(out)@.len() + block_symbols(
                old(self).config,
                old(self).pending@,
            ) + old(self).config.redundant_pkgs,
            final(out)@.len() > old(out)@.len(),
            forall|i: int|
                old(out)@.len() <= i < final(out)@.len() ==> coded_for(
                    old(self).config,
                    old(self).block_id,
                    (#[trigger] final(out)@[i])@,
                ),
            forall|i: int|
                0 <= i < old(out)@.len() ==> (#[trigger] final(out)@[i]) == old(out)@[i],
    {
        let ghost datagrams = self.pending@;
        let ghost config = self.config;
        let ghost id = self.block_id;
        let (header, shape, block) = self.assemble_block();
        proof {
            lemma_capacity(config);
            lemma_block_shape(config, datagrams);
        }
        append_coded(
            out,
            self.config.mode,
            header,
            self.block_id,
            shape.symbol_size,
            &block,
            self.config.redundant_pkgs,
        );
        proof {
            assert forall|i: int| old(out)@.len() <= i < out@.len() implies coded_for(
                config,
                id,
                (#[trigger] out@[i])@,
            ) by {
                let coded = out@[i]@.skip(coded_prefix(config.mode, header).len() as int);
                lemma_coded_prefix_round_trip(config.mode, header, coded);
            }
        }
        self.block_buffer.clear();
        self.pkg_indices.clear();
        self.pkg_indices.push(0);
        self.block_id = self.block_id.wrapping_add(1);
        self.pending = Ghost(Seq::<Seq<u8>>::empty());
        proof {
            let none = Seq::<Seq<u8>>::empty();
            assert(none.take(0) =~= none);
            assert(self.pkg_indices@ =~= boundaries(none));
            assert(self.block_buffer@ =~= concat(none));
        }
    }

    /// Closes the block being gathered, if it holds anything, and returns its
    /// coded packets. With nothing gathered there is nothing to send.
    pub fn flush(&mut self) -> (packets: Option<Vec<Vec<u8>>>)
        requires
            old(self).wf(),
        ensures
            final(self).wf(),
            final(self).config() == old(self).config(),
            final(self)@ == flush_step(old(self)@).0,
            opt_byte_seqs(packets) == (if old(self)@.pending.len() == 0 {
                None
            } else {
                Some(coded_block(old(self).config(), old(self)@.block_id, old(self)@.pending))
            }),
            packets is Some ==> {
                &&& packets.unwrap()@.len() == block_symbols(old(self).config(), old(self)@.pending)
                    + old(self).config().redundant_pkgs
                &&& forall|i: int|
                    0 <= i < packets.unwrap()@.len() ==> coded_for(
                        old(self).config(),
                        old(self)@.block_id,
                        (#[trigger] packets.unwrap()@[i])@,
                    )
            },
    {
        if self.pkg_indices.len() <= 1 {
            return None;
        }
        let mut out: Vec<Vec<u8>> = Vec::new();
        self.close_block(&mut out);
        assert(byte_seqs(out@) =~= coded_block(
            old(self).config(),
            old(self)@.block_id,
            old(self)@.pending,
        ));
        Some(out)
    }

    /// Takes one datagram. Returns the coded packets of the blocks that the
    /// datagram closes, and `None` if it closes none.
    pub fn process_packet_fec(&mut self, packet: &[u8]) -> (packets: Option<Vec<Vec<u8>>>)
        requires
            old(self).wf(),
        ensures
            final(self).wf(),
            final(self).config() == old(self).config(),
            final(self)@ == send_step(old(self).config(), old(self)@, packet@).0,
            opt_byte_seqs(packets) == (if send_step(
                old(self).config(),
                old(self)@,
                packet@,
            ).1.len() == 0 {
                None
            } else {
                Some(
                    coded_blocks(
                        old(self).config(),
                        send_step(old(self).config(), old(self)@, packet@).1,
                    ),
                )
            }),
            packets is Some ==> forall|i: int|
                0 <= i < packets.unwrap()@.len() ==> {
                    ||| coded_for(
                        old(self).config(),
                        old(self)@.block_id,
                        (#[trigger] packets.unwrap()@[i])@,
                    )
                    ||| coded_for(
                        old(self).config(),
                        next_id(old(self)@.block_id),
                        packets.unwrap()@[i]@,
                    )
                },
    {
        let ghost config = self.config;
        let ghost state = self@;
        let ghost none = Seq::<Seq<u8>>::empty();
        let capacity = self.capacity();
        let length = packet.len();
        proof {
            lemma_concat_push(none, packet@);
            assert(concat(none) =~= Seq::<u8>::empty());
            assert(concat(none.push(packet@)) =~= packet@);
            lemma_concat_push(state.pending, packet@);
            reveal_with_fuel(coded_blocks, 3);
        }
        if length > capacity || length + (MIN_BLOCK_SIZE as usize) > capacity {
            return None;
        }
        let mut out: Vec<Vec<u8>> = Vec::new();
        if self.block_buffer.len() + length + 2 * (self.pkg_indices.len() + 1) + 1 > capacity {
            self.close_block(&mut out);
        }
        let ghost early = byte_seqs(out@);
        let ghost made_room = self@;
        self.push_datagram(packet);
        if self.block_buffer.len() >= self.config.min_block_size as usize || self.pkg_indices.len()
            - 1 >= MAX_DATAGRAMS {
            self.close_block(&mut out);
        }
        proof {
            let closed = send_step(config, state, packet@).1;
            if closed.len() == 2 {
                assert(closed.drop_last().drop_last() =~= Seq::<ClosedBlock>::empty());
            } else if closed.len() == 1 {
                assert(closed.drop_last() =~= Seq::<ClosedBlock>::empty());
            }
            assert(byte_seqs(out@) =~= coded_blocks(config, closed));
        }
        if out.len() == 0 {
            None
        } else {
            Some(out)
        }
    }
}

/// Whether `packet` is `prefix` followed by one tagged symbol of block `id`:
/// the block identifier, a symbol number within bounds and a symbol of the
/// given size.
pub open spec fn tagged(prefix: Seq<u8>, id: u8, symbol_size: u16, packet: Seq<u8>) -> bool {
    &&& packet == prefix + packet.skip(prefix.len() as int)
    &&& packet.len() == prefix.len() + PAYLOAD_ID_LEN + symbol_size
    &&& packet[prefix.len() as int] == id
    &&& symbol_id(packet.skip(prefix.len() as int)) < SYMBOL_ID_LIMIT
}

/// Has a block coded and appends its coded packets to `out`: the source
/// symbols, then `repair` repair symbols, each with the block's prefix in
/// front.
fn append_coded(
    out: &mut Vec<Vec<u8>>,
    mode: FecMode,
    header: FecHeader,
    id: u8,
    symbol_size: u16,
    block: &Vec<u8>,
    repair: u32,
)
    requires
        whole_block(symbol_size, block@),
        whole_symbols(block@, symbol_size) + repair <= SYMBOL_ID_LIMIT,
    ensures
        byte_seqs(final(out)@) == byte_seqs(old(out)@) + with_prefix(
            coded_prefix(mode, header),
            source_packets_of(id, symbol_size, block@) + repair_packets_of(
                id,
                symbol_size,
                block@,
                0,
                repair,
            ),
        ),
        final(out)@.len() == old(out)@.len() + whole_symbols(block@, symbol_size) + repair,
        forall|i: int|
            old(out)@.len() <= i < final(out)@.len() ==> tagged(
                coded_prefix(mode, header),
                id,
                symbol_size,
                (#[trigger] final(out)@[i])@,
            ),
        forall|i: int| 0 <= i < old(out)@.len() ==> (#[trigger] final(out)@[i]) == old(out)@[i],
{
    let encoder = new_encoder(id, symbol_size, block.as_slice());
    let source = source_packets(&encoder);
    let repair_symbols = repair_packets(&encoder, 0, repair);
    let prefix: Vec<u8> = match mode {
        FecMode::Static { .. } => Vec::new(),
        FecMode::Dynamic => header.to_bytes(),
    };
    assert(prefix@ =~= coded_prefix(mode, header));
    let ghost first = source_packets_of(id, symbol_size, block@);
    let ghost second = repair_packets_of(id, symbol_size, block@, 0, repair);
    assert(byte_seqs(source@) =~= first);
    proof {
        assert forall|j: int| 0 <= j < source@.len() implies is_symbol_packet(
            id,
            symbol_size,
            (#[trigger] source@[j])@,
        ) by {
            lemma_source_packet(id, symbol_size, block@, j);
        }
        assert forall|j: int| 0 <= j < repair_symbols@.len() implies is_symbol_packet(
            id,
            symbol_size,
            (#[trigger] repair_symbols@[j])@,
        ) by {
            lemma_tag_read_back(
                id,
                whole_symbols(block@, symbol_size) + j,
                repair_symbols@[j]@,
            );
        }
    }
    append_prefixed(out, &prefix, &source, Ghost(id), Ghost(symbol_size));
    append_prefixed(out, &prefix, &repair_symbols, Ghost(id), Ghost(symbol_size));
    assert(byte_seqs(out@) =~= byte_seqs(old(out)@) + with_prefix(prefix@, first + second));
}

/// Whether `coded` is one tagged symbol of block `id`.
pub open spec fn is_symbol_packet(id: u8, symbol_size: u16, coded: Seq<u8>) -> bool {
    &&& coded.len() == PAYLOAD_ID_LEN + symbol_size
    &&& coded[0] == id
    &&& symbol_id(coded) < SYMBOL_ID_LIMIT
}

/// A packet that begins with the tag for a block and a symbol number is read
/// as that block and that number.
pub proof fn lemma_tag_read_back(id: u8, number: int, coded: Seq<u8>)
    requires
        0 <= number < SYMBOL_ID_LIMIT,
        coded.len() >= PAYLOAD_ID_LEN,
        coded.subrange(0, PAYLOAD_ID_LEN as int) == payload_id(id, number),
    ensures
        coded[0] == id,
        symbol_id(coded) == number,
{
    let tag = coded.subrange(0, PAYLOAD_ID_LEN as int);
    assert(tag[0] == coded[0] && tag[1] == coded[1] && tag[2] == coded[2] && tag[3] == coded[3]);
}

/// Appends every packet of `packets`, with `prefix` in front, to `out`.
fn append_prefixed(
    out: &mut Vec<Vec<u8>>,
    prefix: &Vec<u8>,
    packets: &Vec<Vec<u8>>,
    Ghost(id): Ghost<u8>,
    Ghost(symbol_size): Ghost<u16>,
)
    requires
        forall|j: int|
            0 <= j < packets@.len() ==> is_symbol_packet(id, symbol_size, (#[trigger] packets@[j])@),
    ensures
        byte_seqs(final(out)@) == byte_seqs(old(out)@) + with_prefix(prefix@, byte_seqs(packets@)),
        final(out)@.len() == old(out)@.len() + packets@.len(),
        forall|i: int| 0 <= i < old(out)@.len() ==> (#[trigger] final(out)@[i]) == old(out)@[i],
        forall|i: int|
            old(out)@.len() <= i < final(out)@.len() ==> tagged(
                prefix@,
                id,
                symbol_size,
                (#[trigger] final(out)@[i])@,
            ),
{
    let mut i: usize = 0;
    while i < packets.len()
        invariant
            i <= packets@.len(),
            out@.len() == old(out)@.len() + i,
            forall|j: int|
                0 <= j < packets@.len() ==> is_symbol_packet(
                    id,
                    symbol_size,
                    (#[trigger] packets@[j])@,
                ),
            forall|j: int| 0 <= j < old(out)@.len() ==> (#[trigger] out@[j]) == old(out)@[j],
            forall|k: int|
                old(out)@.len() <= k < out@.len() ==> (#[trigger] out@[k])@ == prefix@
                    + packets@[k - old(out)@.len()]@,
            forall|k: int|
                old(out)@.len() <= k < out@.len() ==> tagged(
                    prefix@,
                    id,
                    symbol_size,
                    (#[trigger] out@[k])@,
                ),
        decreases packets@.len() - i,
    {
        let mut framed = copy_range(prefix.as_slice(), 0, prefix.len());
        append_bytes(&mut framed, packets[i].as_slice());
        proof {
            let coded = packets@[i as int]@;
            assert(framed@ =~= prefix@ + coded);
            assert(framed@.skip(prefix@.len() as int) =~= coded);
            assert(is_symbol_packet(id, symbol_size, coded));
        }
        out.push(framed);
        i += 1;
    }
    assert(byte_seqs(out@) =~= byte_seqs(old(out)@) + with_prefix(prefix@, byte_seqs(packets@)));
}

/// The configuration of an encoder in dynamic mode.
pub open spec fn dynamic_config(
    min_block_size: u16,
    wifi_packet_size: u16,
    redundant_pkgs: u32,
) -> EncoderConfig {
    EncoderConfig {
        mode: FecMode::Dynamic,
        min_block_size,
        packet_size: wifi_packet_size,
        redundant_pkgs,
    }
}

/// The configuration of an encoder in static mode.
pub open spec fn static_config(
    min_block_size: u16,
    block_size: u16,
    packet_size: u16,
    redundant_pkgs: u32,
) -> EncoderConfig {
    EncoderConfig {
        mode: FecMode::Static { block_size, packet_size },
        min_block_size,
        packet_size,
        redundant_pkgs,
    }
}

/// Source symbols of a block of these datagrams.
pub open spec fn block_symbols(config: EncoderConfig, datagrams: Seq<Seq<u8>>) -> int {
    symbol_count(
        block_header(config, datagrams).block_size as int,
        symbol_size_for(config.packet_size),
    )
}

/// What holds of every state an encoder can reach: the block being gathered
/// has room in the configuration, and is not full unless it is empty.
pub open spec fn steady(config: EncoderConfig, state: EncoderState) -> bool {
    &&& content_len(state.pending) <= capacity(config)
    &&& state.pending.len() <= MAX_DATAGRAMS
    &&& state.pending.len() > 0 ==> !full(config, state.pending)
}

/// The datagrams of several blocks, block after block.
pub open spec fn carried(blocks: Seq<ClosedBlock>) -> Seq<Seq<u8>>
    decreases blocks.len(),
{
    if blocks.len() == 0 {
        Seq::<Seq<u8>>::empty()
    } else {
        carried(blocks.drop_last()) + blocks.last().datagrams
    }
}

/// The identifier `steps` blocks after `id`.
pub open spec fn id_after(id: u8, steps: int) -> u8 {
    ((id + steps) % 256) as u8
}

/// No datagram is lost, doubled or reordered: the datagrams of the blocks
/// that a datagram closes, followed by what is still gathered afterwards, are
/// what was gathered before followed by the datagram. A datagram that no
/// block can hold changes nothing.
pub proof fn lemma_send_keeps_datagrams(
    config: EncoderConfig,
    state: EncoderState,
    datagram: Seq<u8>,
)
    ensures
        ({
            let (next, closed) = send_step(config, state, datagram);
            if fits(config, Seq::<Seq<u8>>::empty(), datagram) {
                carried(closed) + next.pending == state.pending.push(datagram)
            } else {
                next == state && closed.len() == 0
            }
        }),
{
    let (next, closed) = send_step(config, state, datagram);
    let none = Seq::<Seq<u8>>::empty();
    reveal_with_fuel(carried, 3);
    if fits(config, none, datagram) {
        if closed.len() == 2 {
            assert(closed.drop_last().drop_last() =~= Seq::<ClosedBlock>::empty());
            assert(closed.drop_last().last() == closed[0]);
        } else if closed.len() == 1 {
            assert(closed.drop_last() =~= Seq::<ClosedBlock>::empty());
        }
        assert(carried(closed) + next.pending =~= state.pending.push(datagram));
    }
}

/// Blocks are numbered in the order they are closed: the blocks that a
/// datagram closes carry the identifiers that follow one another from the one
/// being gathered, and the encoder goes on with the next.
pub proof fn lemma_send_numbers_blocks(
    config: EncoderConfig,
    state: EncoderState,
    datagram: Seq<u8>,
)
    ensures
        ({
            let (next, closed) = send_step(config, state, datagram);
            &&& closed.len() <= 2
            &&& forall|i: int|
                0 <= i < closed.len() ==> (#[trigger] closed[i]).id == id_after(state.block_id, i)
            &&& next.block_id == id_after(state.block_id, closed.len() as int)
        }),
{
}

/// Every block that is closed holds at least one datagram, has room in the
/// configuration and can be listed by its directory; and the encoder is left
/// in a steady state.
pub proof fn lemma_send_keeps_steady(
    config: EncoderConfig,
    state: EncoderState,
    datagram: Seq<u8>,
)
    requires
        valid_config(config),
        steady(config, state),
    ensures
        ({
            let (next, closed) = send_step(config, state, datagram);
            &&& steady(config, next)
            &&& forall|i: int|
                0 <= i < closed.len() ==> {
                    &&& (#[trigger] closed[i]).datagrams.len() > 0
                    &&& content_len(closed[i].datagrams) <= capacity(config)
                    &&& listable(closed[i].datagrams)
                }
        }),
{
    let none = Seq::<Seq<u8>>::empty();
    lemma_capacity(config);
    lemma_concat_push(state.pending, datagram);
    lemma_concat_push(none, datagram);
    assert(concat(none) =~= Seq::<u8>::empty());
}

/// A datagram at least as long as the minimum block size, if a block can hold
/// it at all, closes the block it joins: nothing is left gathered, and the last
/// block closed ends with it.
pub proof fn lemma_large_datagram_closes_block(
    config: EncoderConfig,
    state: EncoderState,
    datagram: Seq<u8>,
)
    requires
        fits(config, Seq::<Seq<u8>>::empty(), datagram),
        datagram.len() >= config.min_block_size,
    ensures
        ({
            let (next, closed) = send_step(config, state, datagram);
            &&& next.pending.len() == 0
            &&& closed.len() > 0
            &&& closed.last().datagrams.last() == datagram
        }),
{
    let none = Seq::<Seq<u8>>::empty();
    lemma_concat_push(state.pending, datagram);
    lemma_concat_push(none, datagram);
}

/// A valid configuration has room for at least one empty datagram, and never
/// for more than 16-bit offsets can reach.
pub proof fn lemma_capacity(config: EncoderConfig)
    requires
        valid_config(config),
    ensures
        MIN_BLOCK_SIZE <= capacity(config) <= MAX_OFFSET,
{
}

/// A block that has room in a valid configuration has a shape: its stated
/// length holds its content, it is cut into whole symbols, at least one and
/// no more than the code allows, and its repair symbols have numbers left.
pub proof fn lemma_block_shape(config: EncoderConfig, datagrams: Seq<Seq<u8>>)
    requires
        valid_config(config),
        content_len(datagrams) <= capacity(config),
    ensures
        block_header(config, datagrams).block_size >= content_len(datagrams),
        shape_of(block_header(config, datagrams)) is Some,
        block_padding(config, datagrams) >= 0,
        shape_of(block_header(config, datagrams)).unwrap().block_length == content_len(datagrams)
            + block_padding(config, datagrams),
        shape_of(block_header(config, datagrams)).unwrap().block_length <= 2 * MAX_OFFSET,
        padded_block(config, datagrams).len() == shape_of(
            block_header(config, datagrams),
        ).unwrap().block_length,
        (padded_block(config, datagrams).len() as int) % symbol_size_for(config.packet_size) == 0,
        whole_symbols(
            padded_block(config, datagrams),
            symbol_size_for(config.packet_size) as u16,
        ) == block_symbols(config, datagrams),
        0 < block_symbols(config, datagrams) <= MAX_SOURCE_SYMBOLS,
        block_symbols(config, datagrams) + config.redundant_pkgs <= SYMBOL_ID_LIMIT,
{
    let symbol_size = symbol_size_for(config.packet_size);
    let stated = block_header(config, datagrams).block_size as int;
    lemma_capacity(config);
    assert(stated >= content_len(datagrams));
    lemma_whole_symbols(stated, symbol_size);
    match config.mode {
        FecMode::Static { .. } => {},
        FecMode::Dynamic => {
            assert(symbol_count(stated, symbol_size) <= MAX_SOURCE_SYMBOLS) by (nonlinear_arith)
                requires
                    0 < stated <= MAX_SOURCE_SYMBOLS * symbol_size,
                    symbol_size > 0,
                    symbol_count(stated, symbol_size) == (stated + symbol_size - 1) / symbol_size,
            ;
        },
    }
    lemma_block_len(datagrams, block_padding(config, datagrams));
}

} // verus!
