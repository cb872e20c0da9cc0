//! Delivery without the solver: what a decoder does with the source symbols
//! of a block, in whatever order and however often they arrive.

use crate::block_id::lemma_center_in_window;
use crate::codec::decoded_block;
use crate::codec::first_symbol;
use crate::codec::gathered_sources;
use crate::codec::has_all_sources;
use crate::codec::payload_id;
use crate::codec::PAYLOAD_ID_LEN;
use crate::codec::solved_block;
use crate::codec::source_packet;
use crate::codec::symbol_count;
use crate::codec::symbol_id;
use crate::codec::MAX_SOURCE_SYMBOLS;
use crate::codec::SYMBOL_ID_LIMIT;
use crate::codec::symbol_ids;
use crate::codec::whole_symbols;
use crate::directory::content_len;
use crate::directory::lemma_directory_round_trip;
use crate::directory::MAX_DATAGRAMS;
use crate::fec::coded_prefix;
use crate::fec::lemma_coded_prefix_round_trip;
use crate::fec::shape_of;
use crate::fec::symbol_size_for;
use crate::fec::FecMode;
use crate::rx_fec::accepted;
use crate::rx_fec::lemma_recovered_block_is_deaf;
use crate::rx_fec::DecoderState;
use crate::rx_fec::receive_step;
use crate::rx_fec::Session;
use crate::tx_fec::block_header;
use crate::tx_fec::block_padding;
use crate::tx_fec::block_symbols;
use crate::tx_fec::capacity;
use crate::tx_fec::coded_block;
use crate::tx_fec::EncoderConfig;
use crate::tx_fec::lemma_block_shape;
use crate::tx_fec::lemma_capacity;
use crate::tx_fec::padded_block;
use crate::tx_fec::valid_config;
use vstd::prelude::*;
use vstd::set_lib::lemma_int_range;
use vstd::set_lib::lemma_len_subset;
use vstd::set_lib::set_int_range;

verus! {

/// Whether `packet` is the coded packet of one of the source symbols of
/// `block`.
pub open spec fn is_source_of(id: u8, symbol_size: u16, block: Seq<u8>, packet: Seq<u8>) -> bool {
    &&& 0 <= symbol_id(packet) < whole_symbols(block, symbol_size)
    &&& packet == source_packet(id, symbol_size, block, symbol_id(packet))
}

/// Whether every packet of `fed` is the coded packet of a source symbol of
/// `block`.
pub open spec fn all_sources_of(
    id: u8,
    symbol_size: u16,
    block: Seq<u8>,
    fed: Seq<Seq<u8>>,
) -> bool {
    forall|j: int| 0 <= j < fed.len() ==> is_source_of(id, symbol_size, block, #[trigger] fed[j])
}

/// Whether a block is cut into whole symbols, at least one and no more than
/// the code allows.
pub open spec fn whole_block(symbol_size: u16, block: Seq<u8>) -> bool {
    &&& symbol_size > 0
    &&& block.len() > 0
    &&& (block.len() as int) % (symbol_size as int) == 0
    &&& whole_symbols(block, symbol_size) <= MAX_SOURCE_SYMBOLS
}

/// Source symbol number `index` of `block`.
pub open spec fn source_symbol(symbol_size: u16, block: Seq<u8>, index: int) -> Seq<u8> {
    block.subrange(index * symbol_size, (index + 1) * symbol_size)
}

/// The coded packet of a source symbol is the block identifier, the number of
/// the symbol and the symbol.
pub proof fn lemma_source_packet(id: u8, symbol_size: u16, block: Seq<u8>, index: int)
    requires
        whole_block(symbol_size, block),
        0 <= index < whole_symbols(block, symbol_size),
    ensures
        0 <= index * symbol_size,
        (index + 1) * symbol_size <= block.len(),
        (index + 1) * symbol_size == index * symbol_size + symbol_size,
        source_packet(id, symbol_size, block, index).len() == PAYLOAD_ID_LEN + symbol_size,
        source_packet(id, symbol_size, block, index)[0] == id,
        symbol_id(source_packet(id, symbol_size, block, index)) == index,
        symbol_id(source_packet(id, symbol_size, block, index)) < SYMBOL_ID_LIMIT,
        source_packet(id, symbol_size, block, index).skip(PAYLOAD_ID_LEN as int) == source_symbol(
            symbol_size,
            block,
            index,
        ),
        is_source_of(id, symbol_size, block, source_packet(id, symbol_size, block, index)),
{
    let size = symbol_size as int;
    let count = whole_symbols(block, symbol_size);
    let length = block.len() as int;
    assert(count * size == length && 0 <= index * size && (index + 1) * size <= count * size && (
    index + 1) * size == index * size + size) by (nonlinear_arith)
        requires
            count == length / size,
            length % size == 0,
            size > 0,
            0 <= index < count,
    ;
    let tag = payload_id(id, index);
    let symbol = source_symbol(symbol_size, block, index);
    let packet = source_packet(id, symbol_size, block, index);
    assert(packet == tag + symbol);
    assert(packet[1] == tag[1] && packet[2] == tag[2] && packet[3] == tag[3]);
    assert(packet.skip(PAYLOAD_ID_LEN as int) =~= symbol);
}

/// Among packets of source symbols, the first with a given number, if there
/// is one, carries that source symbol; and there is one exactly if the number
/// occurs.
pub proof fn lemma_first_source(
    id: u8,
    symbol_size: u16,
    block: Seq<u8>,
    fed: Seq<Seq<u8>>,
    index: int,
)
    requires
        whole_block(symbol_size, block),
        all_sources_of(id, symbol_size, block, fed),
    ensures
        first_symbol(fed, index) is Some <==> symbol_ids(fed).contains(index),
        first_symbol(fed, index) is Some ==> first_symbol(fed, index) == Some(
            source_symbol(symbol_size, block, index),
        ),
    decreases fed.len(),
{
    if fed.len() > 0 {
        let head = fed.drop_last();
        let last = fed.last();
        assert forall|j: int| 0 <= j < head.len() implies is_source_of(
            id,
            symbol_size,
            block,
            #[trigger] head[j],
        ) by {
            assert(head[j] == fed[j]);
        }
        lemma_first_source(id, symbol_size, block, head, index);
        assert(is_source_of(id, symbol_size, block, fed[fed.len() - 1]));
        if symbol_id(last) == index {
            lemma_source_packet(id, symbol_size, block, index);
            assert(symbol_id(fed[fed.len() - 1]) == index);
        }
        if symbol_ids(head).contains(index) {
            let j = choose|j: int| 0 <= j < head.len() && #[trigger] symbol_id(head[j]) == index;
            assert(symbol_id(fed[j]) == index);
        }
        if symbol_ids(fed).contains(index) {
            let j = choose|j: int| 0 <= j < fed.len() && #[trigger] symbol_id(fed[j]) == index;
            if j < head.len() {
                assert(symbol_id(head[j]) == index);
            }
        }
    }
}

/// The source symbols of a block, one after another, are the block.
pub proof fn lemma_gathered_sources(
    id: u8,
    symbol_size: u16,
    block: Seq<u8>,
    fed: Seq<Seq<u8>>,
    count: int,
)
    requires
        whole_block(symbol_size, block),
        all_sources_of(id, symbol_size, block, fed),
        0 <= count <= whole_symbols(block, symbol_size),
        forall|index: int| 0 <= index < count ==> symbol_ids(fed).contains(index),
    ensures
        0 <= count * symbol_size <= block.len(),
        gathered_sources(fed, count) == block.subrange(0, count * symbol_size),
    decreases count,
{
    if count == 0 {
        assert(gathered_sources(fed, count) =~= block.subrange(0, 0));
    } else {
        lemma_gathered_sources(id, symbol_size, block, fed, count - 1);
        lemma_source_packet(id, symbol_size, block, count - 1);
        lemma_first_source(id, symbol_size, block, fed, count - 1);
        assert(symbol_ids(fed).contains(count - 1));
        assert(gathered_sources(fed, count) =~= block.subrange(0, count * symbol_size));
    }
}

/// The numbers of source symbols are among the first as many numbers as the
/// block has symbols.
pub proof fn lemma_source_ids(id: u8, symbol_size: u16, block: Seq<u8>, fed: Seq<Seq<u8>>)
    requires
        whole_block(symbol_size, block),
        all_sources_of(id, symbol_size, block, fed),
    ensures
        symbol_ids(fed).subset_of(set_int_range(0, whole_symbols(block, symbol_size))),
        symbol_ids(fed).finite(),
        symbol_ids(fed).len() <= whole_symbols(block, symbol_size),
{
    let count = whole_symbols(block, symbol_size);
    assert forall|n: int| symbol_ids(fed).contains(n) implies set_int_range(0, count).contains(
        n,
    ) by {
        let j = choose|j: int| 0 <= j < fed.len() && #[trigger] symbol_id(fed[j]) == n;
        assert(is_source_of(id, symbol_size, block, fed[j]));
    }
    lemma_int_range(0, count);
    lemma_len_subset(symbol_ids(fed), set_int_range(0, count));
}

/// Every source symbol of a block, in any order and however often, is enough:
/// a decoder that has been handed nothing but packets of source symbols, and
/// each source symbol at least once, returns the block, whatever its solver
/// would say.
pub proof fn lemma_all_sources_rebuild(
    id: u8,
    symbol_size: u16,
    block: Seq<u8>,
    fed: Seq<Seq<u8>>,
    solved: Option<Seq<u8>>,
)
    requires
        whole_block(symbol_size, block),
        all_sources_of(id, symbol_size, block, fed),
        forall|index: int|
            0 <= index < whole_symbols(block, symbol_size) ==> symbol_ids(fed).contains(index),
    ensures
        decoded_block(symbol_size, block.len() as u64, fed, solved) == Some(block),
{
    let count = whole_symbols(block, symbol_size);
    lemma_block_symbol_count(symbol_size, block);
    lemma_source_ids(id, symbol_size, block, fed);
    assert(symbol_ids(fed) =~= set_int_range(0, count));
    lemma_int_range(0, count);
    assert forall|index: int| 0 <= index < count implies (#[trigger] first_symbol(
        fed,
        index,
    )) is Some by {
        lemma_first_source(id, symbol_size, block, fed, index);
    }
    assert(has_all_sources(fed, count));
    lemma_gathered_sources(id, symbol_size, block, fed, count);
    assert(block.subrange(0, count * symbol_size) =~= block);
}

/// A source symbol short, a decoder waits: handed nothing but packets of
/// source symbols, and one source symbol never, it returns nothing, whatever
/// its solver would say.
pub proof fn lemma_missing_source_waits(
    id: u8,
    symbol_size: u16,
    block: Seq<u8>,
    fed: Seq<Seq<u8>>,
    missing: int,
    solved: Option<Seq<u8>>,
)
    requires
        whole_block(symbol_size, block),
        all_sources_of(id, symbol_size, block, fed),
        0 <= missing < whole_symbols(block, symbol_size),
        !symbol_ids(fed).contains(missing),
    ensures
        decoded_block(symbol_size, block.len() as u64, fed, solved) is None,
{
    let count = whole_symbols(block, symbol_size);
    lemma_block_symbol_count(symbol_size, block);
    lemma_source_ids(id, symbol_size, block, fed);
    lemma_int_range(0, count);
    let others = set_int_range(0, count).remove(missing);
    assert(symbol_ids(fed).subset_of(others));
    lemma_len_subset(symbol_ids(fed), others);
}

/// A block of whole symbols has as many symbols as its length asks for, and
/// its length fits the decoder's count.
pub proof fn lemma_block_symbol_count(symbol_size: u16, block: Seq<u8>)
    requires
        whole_block(symbol_size, block),
    ensures
        symbol_count(block.len() as int, symbol_size as int) == whole_symbols(block, symbol_size),
        whole_symbols(block, symbol_size) * symbol_size == block.len(),
        block.len() <= MAX_SOURCE_SYMBOLS * symbol_size,
        block.len() as u64 == block.len(),
{
    let size = symbol_size as int;
    let length = block.len() as int;
    let count = whole_symbols(block, symbol_size);
    assert((length + size - 1) / size == count && length == count * size && length
        <= MAX_SOURCE_SYMBOLS * size) by (nonlinear_arith)
        requires
            count == length / size,
            length % size == 0,
            size > 0,
            count <= MAX_SOURCE_SYMBOLS,
    ;
}

/// Whether the session of block `id`, if a state holds one, was opened for
/// the block of these datagrams and has been fed packets of its source
/// symbols only.
pub open spec fn gathering(
    config: EncoderConfig,
    id: u8,
    datagrams: Seq<Seq<u8>>,
    state: DecoderState,
) -> bool {
    &&& !state.decoded.contains(id)
    &&& state.sessions.contains_key(id) ==> {
        &&& Some(state.sessions[id].shape) == shape_of(block_header(config, datagrams))
        &&& all_sources_of(
            id,
            symbol_size_for(config.packet_size) as u16,
            padded_block(config, datagrams),
            state.sessions[id].packets,
        )
    }
}

/// The packets of source symbols that a state holds for block `id`.
pub open spec fn gathered(state: DecoderState, id: u8) -> Seq<Seq<u8>> {
    if state.sessions.contains_key(id) {
        state.sessions[id].packets
    } else {
        Seq::<Seq<u8>>::empty()
    }
}

/// Delivery from source symbols alone. A receiver that is gathering the
/// source symbols of a block is handed one more of them, as the encoder sent
/// it. If every source symbol has then arrived, the datagrams of the block
/// are delivered, in their order, and the block is marked as recovered;
/// otherwise nothing is delivered and the receiver goes on gathering.
pub proof fn lemma_source_symbols_deliver(
    config: EncoderConfig,
    id: u8,
    datagrams: Seq<Seq<u8>>,
    state: DecoderState,
    index: int,
)
    requires
        valid_config(config),
        datagrams.len() <= MAX_DATAGRAMS,
        content_len(datagrams) <= capacity(config),
        0 <= index < block_symbols(config, datagrams),
        gathering(config, id, datagrams, state),
    ensures
        ({
            let symbol_size = symbol_size_for(config.packet_size) as u16;
            let block = padded_block(config, datagrams);
            let coded = source_packet(id, symbol_size, block, index);
            let packet = coded_prefix(config.mode, block_header(config, datagrams)) + coded;
            let fed = gathered(state, id).push(coded);
            let (next, delivered) = receive_step(config.mode, state, packet);
            &&& accepted(config.mode, state, packet)
            &&& if forall|n: int|
                0 <= n < block_symbols(config, datagrams) ==> symbol_ids(fed).contains(n) {
                &&& delivered == Some(datagrams)
                &&& next.decoded.contains(id)
                &&& !next.sessions.contains_key(id)
            } else {
                &&& delivered is None
                &&& gathering(config, id, datagrams, next)
                &&& gathered(next, id) == fed
            }
        }),
{
    let symbol_size = symbol_size_for(config.packet_size) as u16;
    let header = block_header(config, datagrams);
    let block = padded_block(config, datagrams);
    let count = block_symbols(config, datagrams);
    let coded = source_packet(id, symbol_size, block, index);
    let packet = coded_prefix(config.mode, header) + coded;
    let held = gathered(state, id);
    let fed = held.push(coded);
    lemma_capacity(config);
    lemma_block_shape(config, datagrams);
    lemma_coded_prefix_round_trip(config.mode, header, coded);
    lemma_source_packet(id, symbol_size, block, index);
    lemma_block_symbol_count(symbol_size, block);
    lemma_center_in_window(id);
    let shape = shape_of(header).unwrap();
    assert(shape.symbol_size == symbol_size);
    assert(shape.block_length == block.len());
    assert forall|j: int| 0 <= j < fed.len() implies is_source_of(
        id,
        symbol_size,
        block,
        #[trigger] fed[j],
    ) by {
        if j < held.len() {
            assert(fed[j] == held[j]);
        }
    }
    let solved = solved_block(id, symbol_size, shape.block_length, fed);
    if forall|n: int| 0 <= n < count ==> symbol_ids(fed).contains(n) {
        lemma_all_sources_rebuild(id, symbol_size, block, fed, solved);
        lemma_directory_round_trip(datagrams, block_padding(config, datagrams));
    } else {
        let missing = choose|n: int| 0 <= n < count && !symbol_ids(fed).contains(n);
        lemma_missing_source_waits(id, symbol_size, block, fed, missing, solved);
        let next = receive_step(config.mode, state, packet).0;
        assert(next.sessions.contains_key(id));
        assert(next.sessions[id] == Session { shape, packets: fed });
    }
}

/// The state of a receiver after it has been handed `packets`, one after
/// another.
pub open spec fn state_after(mode: FecMode, state: DecoderState, packets: Seq<Seq<u8>>) -> DecoderState
    decreases packets.len(),
{
    if packets.len() == 0 {
        state
    } else {
        receive_step(mode, state_after(mode, state, packets.drop_last()), packets.last()).0
    }
}

/// What the last of `packets` delivers to a receiver that has been handed the
/// others before.
pub open spec fn last_delivery(mode: FecMode, state: DecoderState, packets: Seq<Seq<u8>>) -> Option<
    Seq<Seq<u8>>,
> {
    receive_step(mode, state_after(mode, state, packets.drop_last()), packets.last()).1
}

/// The coded packets of the source symbols of a block whose numbers are
/// `order`, in that order.
pub open spec fn source_run(
    config: EncoderConfig,
    id: u8,
    datagrams: Seq<Seq<u8>>,
    order: Seq<int>,
) -> Seq<Seq<u8>> {
    Seq::new(
        order.len(),
        |j: int|
            source_packet(
                id,
                symbol_size_for(config.packet_size) as u16,
                padded_block(config, datagrams),
                order[j],
            ),
    )
}

/// The packets of `source_run` as the encoder sends them: each with the
/// block's parameters in front where the mode asks for them.
pub open spec fn sent_run(
    config: EncoderConfig,
    id: u8,
    datagrams: Seq<Seq<u8>>,
    order: Seq<int>,
) -> Seq<Seq<u8>> {
    Seq::new(
        order.len(),
        |j: int|
            coded_prefix(config.mode, block_header(config, datagrams)) + source_run(
                config,
                id,
                datagrams,
                order,
            )[j],
    )
}

/// The first coded packets of a block are those of its source symbols, in
/// order: packet number `index` of what the encoder sends for a block is the
/// packet that a run of source symbols holds for that number.
pub proof fn lemma_coded_block_sources(
    config: EncoderConfig,
    id: u8,
    datagrams: Seq<Seq<u8>>,
    index: int,
)
    requires
        valid_config(config),
        datagrams.len() <= MAX_DATAGRAMS,
        content_len(datagrams) <= capacity(config),
        0 <= index < block_symbols(config, datagrams),
    ensures
        index < coded_block(config, id, datagrams).len(),
        coded_block(config, id, datagrams)[index] == sent_run(
            config,
            id,
            datagrams,
            seq![index],
        )[0],
{
    lemma_capacity(config);
    lemma_block_shape(config, datagrams);
}

/// Whether each of the first `count` numbers occurs in `order`.
pub open spec fn covers(order: Seq<int>, count: int) -> bool {
    forall|n: int| 0 <= n < count ==> order.contains(n)
}

/// Whether every number in `order` is that of a source symbol of a block of
/// `count` symbols.
pub open spec fn numbers_sources(order: Seq<int>, count: int) -> bool {
    forall|j: int| 0 <= j < order.len() ==> 0 <= #[trigger] order[j] < count
}

/// The symbol numbers among the packets of a run of source symbols are the
/// numbers of the run.
pub proof fn lemma_source_run_ids(
    config: EncoderConfig,
    id: u8,
    datagrams: Seq<Seq<u8>>,
    order: Seq<int>,
)
    requires
        valid_config(config),
        datagrams.len() <= MAX_DATAGRAMS,
        content_len(datagrams) <= capacity(config),
        numbers_sources(order, block_symbols(config, datagrams)),
    ensures
        forall|n: int| symbol_ids(source_run(config, id, datagrams, order)).contains(n)
            <==> order.contains(n),
        all_sources_of(
            id,
            symbol_size_for(config.packet_size) as u16,
            padded_block(config, datagrams),
            source_run(config, id, datagrams, order),
        ),
{
    let symbol_size = symbol_size_for(config.packet_size) as u16;
    let block = padded_block(config, datagrams);
    let run = source_run(config, id, datagrams, order);
    lemma_capacity(config);
    lemma_block_shape(config, datagrams);
    assert forall|j: int| 0 <= j < run.len() implies symbol_id(#[trigger] run[j]) == order[j]
        && is_source_of(id, symbol_size, block, run[j]) by {
        lemma_source_packet(id, symbol_size, block, order[j]);
    }
    assert forall|n: int| symbol_ids(run).contains(n) implies order.contains(n) by {
        let j = choose|j: int| 0 <= j < run.len() && #[trigger] symbol_id(run[j]) == n;
        assert(order[j] == n);
    }
    assert forall|n: int| order.contains(n) implies symbol_ids(run).contains(n) by {
        let j = choose|j: int| 0 <= j < order.len() && order[j] == n;
        assert(symbol_id(run[j]) == n);
    }
}

/// A run that covers the source symbols still does with one more packet.
pub proof fn lemma_covers_grows(order: Seq<int>, count: int)
    requires
        order.len() > 0,
        covers(order.drop_last(), count),
    ensures
        covers(order, count),
{
    let earlier = order.drop_last();
    assert forall|n: int| 0 <= n < count implies order.contains(n) by {
        assert(earlier.contains(n));
        let j = choose|j: int| 0 <= j < earlier.len() && earlier[j] == n;
        assert(order[j] == n);
    }
}

/// Round trip without loss, in any order. A receiver that holds nothing of a
/// block is handed source symbols of the block as the encoder sent them, in
/// any order and each as often as it may come. The packet with which every
/// source symbol has arrived delivers the datagrams of the block, as they
/// were submitted; every packet before it and every packet after it delivers
/// nothing. The statement is about the last packet of the run: it holds of
/// every packet, since every beginning of a run is a run.
///
/// Afterwards the block is marked as recovered, or, as long as a source
/// symbol is missing, the receiver is gathering with the run in hand.
pub proof fn lemma_source_symbols_in_any_order(
    config: EncoderConfig,
    id: u8,
    datagrams: Seq<Seq<u8>>,
    state: DecoderState,
    order: Seq<int>,
)
    requires
        valid_config(config),
        datagrams.len() <= MAX_DATAGRAMS,
        content_len(datagrams) <= capacity(config),
        numbers_sources(order, block_symbols(config, datagrams)),
        !state.decoded.contains(id),
        !state.sessions.contains_key(id),
        order.len() > 0,
    ensures
        ({
            let count = block_symbols(config, datagrams);
            let sent = sent_run(config, id, datagrams, order);
            let before = state_after(config.mode, state, sent.drop_last());
            let (after, delivered) = receive_step(config.mode, before, sent.last());
            &&& delivered == last_delivery(config.mode, state, sent)
            &&& delivered == (if covers(order, count) && !covers(order.drop_last(), count) {
                Some(datagrams)
            } else {
                None
            })
            &&& if covers(order, count) {
                after.decoded.contains(id)
            } else {
                &&& gathering(config, id, datagrams, after)
                &&& gathered(after, id) == source_run(config, id, datagrams, order)
            }
        }),
    decreases order.len(),
{
    let count = block_symbols(config, datagrams);
    let symbol_size = symbol_size_for(config.packet_size) as u16;
    let header = block_header(config, datagrams);
    let block = padded_block(config, datagrams);
    let earlier = order.drop_last();
    let sent = sent_run(config, id, datagrams, order);
    let run = source_run(config, id, datagrams, order);
    let held = source_run(config, id, datagrams, earlier);
    let before = state_after(config.mode, state, sent.drop_last());
    let index = order.last();
    let coded = source_packet(id, symbol_size, block, index);
    assert(sent.drop_last() =~= sent_run(config, id, datagrams, earlier));
    assert(sent.last() == coded_prefix(config.mode, header) + coded);
    assert(run =~= held.push(coded));
    assert(numbers_sources(earlier, count)) by {
        assert forall|j: int| 0 <= j < earlier.len() implies 0 <= #[trigger] earlier[j]
            < count by {
            assert(earlier[j] == order[j]);
        }
    }
    assert(0 <= order[order.len() - 1] < count);
    lemma_capacity(config);
    lemma_block_shape(config, datagrams);
    lemma_source_packet(id, symbol_size, block, index);
    lemma_coded_prefix_round_trip(config.mode, header, coded);
    if earlier.len() == 0 {
        assert(sent.drop_last() =~= Seq::<Seq<u8>>::empty());
        assert(before == state);
        assert(!earlier.contains(0));
        assert(held =~= Seq::<Seq<u8>>::empty());
    } else {
        lemma_source_symbols_in_any_order(config, id, datagrams, state, earlier);
        let sent_earlier = sent_run(config, id, datagrams, earlier);
        assert(before == state_after(config.mode, state, sent_earlier));
        assert(before == receive_step(
            config.mode,
            state_after(config.mode, state, sent_earlier.drop_last()),
            sent_earlier.last(),
        ).0);
    }
    if covers(earlier, count) {
        lemma_covers_grows(order, count);
        assert(before.decoded.contains(id));
        lemma_recovered_block_is_deaf(config.mode, before, sent.last());
    } else {
        assert(gathering(config, id, datagrams, before));
        assert(gathered(before, id) == held);
        lemma_source_run_ids(config, id, datagrams, order);
        lemma_source_symbols_deliver(config, id, datagrams, before, index);
        assert(gathered(before, id).push(coded) == run);
        if covers(order, count) {
            assert forall|n: int| 0 <= n < count implies symbol_ids(run).contains(n) by {
                assert(order.contains(n));
            }
        } else {
            let n = choose|n: int| 0 <= n < count && !order.contains(n);
            assert(!symbol_ids(run).contains(n));
        }
    }
}


} // verus!
