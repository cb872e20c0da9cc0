//! The block decoder: one decode session per block in flight, fed one coded
//! packet at a time, with a window over the identifier space that bounds what
//! is kept.

use crate::block_id::BlockId;
use crate::block_id::forward_distance;
use crate::block_id::in_window;
use crate::block_id::lemma_center_in_window;
use crate::block_id::lemma_stale_outside_window;
use crate::block_id::lemma_window_size;
use crate::block_id::window;
use crate::block_id::WINDOW_SIZE;
use crate::codec::decoded_block;
use crate::codec::decoder_block_id;
use crate::codec::decoder_block_length;
use crate::codec::decoder_packets;
use crate::codec::decoder_symbol_size;
use crate::codec::feed_decoder;
use crate::codec::new_decoder;
use crate::codec::PAYLOAD_ID_LEN;
use crate::codec::SYMBOL_ID_LIMIT;
use crate::codec::solved_block;
use crate::codec::symbol_count;
use crate::codec::symbol_id;
use crate::codec::symbol_ids;
use crate::directory::block_bytes;
use crate::directory::build_packets;
use crate::directory::lemma_directory_round_trip;
use crate::directory::listable;
use crate::directory::opt_byte_seqs;
use crate::directory::split_block;
use crate::fec::BlockShape;
use crate::fec::check_fixed_shape;
use crate::fec::coded_part;
use crate::fec::fixed_shape_error;
use crate::fec::ConfigError;
use crate::fec::FecHeader;
use crate::fec::FecMode;
use crate::fec::shape_is_sound;
use crate::fec::shape_of;
use raptorq::SourceBlockDecoder;
use std::collections::HashMap;
use std::collections::HashSet;
use vstd::prelude::*;

verus! {

broadcast use vstd::std_specs::hash::group_hash_axioms;

/// One block in flight: the shape it was opened with and the coded packets
/// received for it so far, oldest first.
pub struct Session {
    pub shape: BlockShape,
    pub packets: Seq<Seq<u8>>,
}

/// What a decoder remembers: the blocks in flight and the identifiers of the
/// blocks already recovered.
pub struct DecoderState {
    pub sessions: Map<u8, Session>,
    pub decoded: Set<u8>,
}

/// The state with everything outside the window of `center` dropped.
pub open spec fn evicted(center: u8, state: DecoderState) -> DecoderState {
    DecoderState {
        sessions: state.sessions.restrict(window(center)),
        decoded: state.decoded.intersect(window(center)),
    }
}

/// The session that a packet of block `id` goes to: the one in flight, or a
/// fresh one of the shape that the packet's parameters give, if they give one.
pub open spec fn session_for(state: DecoderState, id: u8, header: FecHeader) -> Option<Session> {
    if state.sessions.contains_key(id) {
        Some(state.sessions[id])
    } else {
        match shape_of(header) {
            Some(shape) => Some(Session { shape, packets: Seq::<Seq<u8>>::empty() }),
            None => None,
        }
    }
}

/// What the erasure decoder of block `id` returns when `coded` joins the
/// packets of its session.
pub open spec fn session_outcome(id: u8, session: Session, coded: Seq<u8>) -> Option<Seq<u8>> {
    let fed = session.packets.push(coded);
    decoded_block(
        session.shape.symbol_size,
        session.shape.block_length,
        fed,
        solved_block(id, session.shape.symbol_size, session.shape.block_length, fed),
    )
}

/// The session that an accepted packet is fed to.
pub open spec fn target_session(mode: FecMode, state: DecoderState, packet: Seq<u8>) -> Session {
    let (header, coded) = coded_part(mode, packet).unwrap();
    session_for(state, coded[0], header).unwrap()
}

/// What the erasure decoder returns for an accepted packet.
pub open spec fn packet_outcome(mode: FecMode, state: DecoderState, packet: Seq<u8>) -> Option<
    Seq<u8>,
> {
    let (header, coded) = coded_part(mode, packet).unwrap();
    session_outcome(coded[0], target_session(mode, state, packet), coded)
}

/// Handing `coded` to the session of block `id`. If the block can now be
/// rebuilt, its session ends, its identifier is marked as recovered and its
/// datagrams are the result; otherwise the session keeps the packet. Either
/// way everything outside the window of `id` is dropped.
pub open spec fn feed_step(state: DecoderState, id: u8, session: Session, coded: Seq<u8>) -> (
    DecoderState,
    Option<Seq<Seq<u8>>>,
) {
    let fed = session.packets.push(coded);
    match session_outcome(id, session, coded) {
        Some(block) => (
            evicted(
                id,
                DecoderState {
                    sessions: state.sessions.remove(id),
                    decoded: state.decoded.insert(id),
                },
            ),
            split_block(block),
        ),
        None => (
            evicted(
                id,
                DecoderState {
                    sessions: state.sessions.insert(id, Session { shape: session.shape, packets: fed }),
                    decoded: state.decoded,
                },
            ),
            None,
        ),
    }
}

/// What one received coded packet does to a decoder, and what it delivers.
///
/// The packet is dropped, and nothing changes, if its block parameters cannot
/// be read, if it is too short to name a block, if its block has already been
/// recovered, if it would open a block of no valid shape, if it is not
/// exactly one tagged symbol of its block's size, or if the number of its
/// symbol is out of bounds. Otherwise it is fed to its block's session.
pub open spec fn receive_step(mode: FecMode, state: DecoderState, packet: Seq<u8>) -> (
    DecoderState,
    Option<Seq<Seq<u8>>>,
) {
    match coded_part(mode, packet) {
        None => (state, None),
        Some((header, coded)) => {
            if coded.len() == 0 || state.decoded.contains(coded[0]) {
                (state, None)
            } else {
                match session_for(state, coded[0], header) {
                    None => (state, None),
                    Some(session) => {
                        if coded.len() != PAYLOAD_ID_LEN + session.shape.symbol_size || symbol_id(
                            coded,
                        ) >= SYMBOL_ID_LIMIT {
                            (state, None)
                        } else {
                            feed_step(state, coded[0], session, coded)
                        }
                    },
                }
            }
        },
    }
}

/// Whether a packet gets as far as a session: the cases of `receive_step` in
/// which it is not dropped.
pub open spec fn accepted(mode: FecMode, state: DecoderState, packet: Seq<u8>) -> bool {
    match coded_part(mode, packet) {
        None => false,
        Some((header, coded)) => {
            &&& coded.len() > 0
            &&& !state.decoded.contains(coded[0])
            &&& match session_for(state, coded[0], header) {
                None => false,
                Some(session) => coded.len() == PAYLOAD_ID_LEN + session.shape.symbol_size
                    && symbol_id(coded) < SYMBOL_ID_LIMIT,
            }
        },
    }
}

/// The block that a packet names, if it is long enough to name one.
pub open spec fn block_of(mode: FecMode, packet: Seq<u8>) -> Option<u8> {
    match coded_part(mode, packet) {
        None => None,
        Some((header, coded)) => if coded.len() > 0 {
            Some(coded[0])
        } else {
            None
        },
    }
}

/// Whether everything a state holds lies inside the window of `center`.
pub open spec fn within_window(center: u8, state: DecoderState) -> bool {
    state.sessions.dom().subset_of(window(center)) && state.decoded.subset_of(window(center))
}

/// What holds of every state a decoder can reach: all it holds lies inside
/// one window, and no block is both in flight and marked as recovered.
pub open spec fn sound(state: DecoderState) -> bool {
    &&& exists|center: u8| within_window(center, state)
    &&& state.sessions.dom().disjoint(state.decoded)
}

/// The state of a decoder that has seen nothing.
pub open spec fn initial_state() -> DecoderState {
    DecoderState { sessions: Map::<u8, Session>::empty(), decoded: Set::<u8>::empty() }
}

/// A decode session: the erasure decoder of one block, with the symbol size
/// it was opened for.
pub struct DecodeSession {
    symbol_size: u16,
    decoder: SourceBlockDecoder,
}

impl DecodeSession {
    /// What the session holds.
    pub closed spec fn view(&self) -> Session {
        Session {
            shape: BlockShape {
                symbol_size: decoder_symbol_size(self.decoder),
                block_length: decoder_block_length(self.decoder),
            },
            packets: decoder_packets(self.decoder),
        }
    }

    /// Whether this is a sound session of block `id`.
    pub closed spec fn is_for(&self, id: u8) -> bool {
        &&& decoder_block_id(self.decoder) == id
        &&& decoder_symbol_size(self.decoder) == self.symbol_size
    }

    /// A fresh session for block `id`.
    fn open(id: u8, shape: BlockShape) -> (session: DecodeSession)
        requires
            shape_is_sound(shape),
        ensures
            session.is_for(id),
            session.view() == (Session { shape, packets: Seq::<Seq<u8>>::empty() }),
    {
        DecodeSession {
            symbol_size: shape.symbol_size,
            decoder: new_decoder(id, shape.symbol_size, shape.block_length),
        }
    }
}

/// The receive side of the erasure code.
pub struct RXFec {
    mode: FecMode,
    fec_decoders: HashMap<u8, DecodeSession>,
    decoded_blocks: HashSet<u8>,
}

impl View for RXFec {
    type V = DecoderState;

    closed spec fn view(&self) -> DecoderState {
        DecoderState {
            sessions: Map::new(
                |id: u8| self.fec_decoders@.contains_key(id),
                |id: u8| self.fec_decoders@[id].view(),
            ),
            decoded: self.decoded_blocks@,
        }
    }
}

impl RXFec {
    /// Where this decoder takes the parameters of a block from.
    pub closed spec fn mode(&self) -> FecMode {
        self.mode
    }

    /// The invariant of a decoder: every session is filed under the block it
    /// decodes, the state is sound, and fixed block parameters, where there
    /// are any, describe a block.
    pub closed spec fn wf(&self) -> bool {
        &&& self.filed()
        &&& sound(self@)
    }

    /// Every session is filed under the block it decodes, no block is both in
    /// flight and recovered, and fixed block parameters describe a block.
    spec fn filed(&self) -> bool {
        &&& forall|id: u8| #[trigger]
            self.fec_decoders@.contains_key(id) ==> self.fec_decoders@[id].is_for(id)
        &&& forall|id: u8|
            !(#[trigger] self.fec_decoders@.contains_key(id) && self.decoded_blocks@.contains(id))
        &&& match self.mode {
            FecMode::Static { block_size, packet_size } => shape_of(
                FecHeader { block_size, packet_size },
            ) is Some,
            FecMode::Dynamic => true,
        }
    }

    /// A decoder for a link whose coded packets carry their block parameters.
    pub fn new() -> (rx: RXFec)
        ensures
            rx.wf(),
            rx.mode() == FecMode::Dynamic,
            rx@.sessions == Map::<u8, Session>::empty(),
            rx@.decoded == Set::<u8>::empty(),
    {
        let rx = RXFec {
            mode: FecMode::Dynamic,
            fec_decoders: HashMap::new(),
            decoded_blocks: HashSet::new(),
        };
        assert(rx@.sessions =~= Map::<u8, Session>::empty());
        assert(within_window(0u8, rx@));
        rx
    }

    /// A decoder for a link on which every block has the given parameters.
    /// Parameters that describe no block are turned down.
    pub fn new_static(block_size: u16, packet_size: u16) -> (made: Result<RXFec, ConfigError>)
        ensures
            match made {
                Ok(rx) => {
                    &&& rx.wf()
                    &&& rx.mode() == FecMode::Static { block_size, packet_size }
                    &&& rx@.sessions == Map::<u8, Session>::empty()
                    &&& rx@.decoded == Set::<u8>::empty()
                    &&& fixed_shape_error(block_size, packet_size) is None
                },
                Err(e) => fixed_shape_error(block_size, packet_size) == Some(e),
            },
    {
        match check_fixed_shape(block_size, packet_size) {
            Some(e) => {
                return Err(e);
            },
            None => {},
        }
        let rx = RXFec {
            mode: FecMode::Static { block_size, packet_size },
            fec_decoders: HashMap::new(),
            decoded_blocks: HashSet::new(),
        };
        assert(rx@.sessions =~= Map::<u8, Session>::empty());
        assert(within_window(0u8, rx@));
        Ok(rx)
    }

    /// Whether a block with this identifier is in flight.
    pub fn has_session(&self, id: u8) -> (r: bool)
        ensures
            r == self@.sessions.contains_key(id),
    {
        self.fec_decoders.contains_key(&id)
    }

    /// Whether the block with this identifier is marked as recovered.
    pub fn is_decoded(&self, id: u8) -> (r: bool)
        ensures
            r == self@.decoded.contains(id),
    {
        self.decoded_blocks.contains(&id)
    }

    /// How many blocks are in flight. Never more than a window holds.
    pub fn session_count(&self) -> (count: usize)
        requires
            self.wf(),
        ensures
            count == self@.sessions.dom().len(),
            count <= WINDOW_SIZE,
    {
        proof {
            self.lemma_sound();
            lemma_sound_is_small(self@);
            assert(self@.sessions.dom() =~= self.fec_decoders@.dom());
        }
        self.fec_decoders.len()
    }

    /// How many blocks are marked as recovered. Never more than a window holds.
    pub fn decoded_count(&self) -> (count: usize)
        requires
            self.wf(),
        ensures
            count == self@.decoded.len(),
            count <= WINDOW_SIZE,
    {
        proof {
            self.lemma_sound();
            lemma_sound_is_small(self@);
        }
        self.decoded_blocks.len()
    }

    /// The state of a well-formed decoder is sound.
    pub proof fn lemma_sound(&self)
        requires
            self.wf(),
        ensures
            sound(self@),
    {
    }

    /// Drops every session and every recovered mark outside the window of
    /// `center`.
    fn evict(&mut self, center: u8)
        requires
            old(self).filed(),
        ensures
            final(self).wf(),
            final(self).mode() == old(self).mode(),
            final(self)@ == evicted(center, old(self)@),
    {
        let middle = BlockId::new(center);
        let mut id: u8 = 0;
        let mut done = false;
        while !done
            invariant
                self.filed(),
                self.mode == old(self).mode,
                done ==> id == 255,
                forall|k: u8|
                    #![trigger self.fec_decoders@.contains_key(k)]
                    #![trigger old(self).fec_decoders@.contains_key(k)]
                    self.fec_decoders@.contains_key(k) <==> old(self).fec_decoders@.contains_key(k)
                        && (in_window(center, k) || (k >= id && !done)),
                forall|k: u8|
                    #![trigger self.fec_decoders@[k]]
                    self.fec_decoders@.contains_key(k) ==> self.fec_decoders@[k] == old(
                        self,
                    ).fec_decoders@[k],
                forall|k: u8|
                    #![trigger self.decoded_blocks@.contains(k)]
                    #![trigger old(self).decoded_blocks@.contains(k)]
                    self.decoded_blocks@.contains(k) <==> old(self).decoded_blocks@.contains(k) && (
                    in_window(center, k) || (k >= id && !done)),
                middle.value == center,
            decreases 256 - id - (if done { 1int } else { 0int }),
        {
            if !middle.in_window(BlockId::new(id)) {
                self.fec_decoders.remove(&id);
                self.decoded_blocks.remove(&id);
            }
            if id == 255 {
                done = true;
            } else {
                id += 1;
            }
        }
        assert(self@.sessions =~= evicted(center, old(self)@).sessions);
        assert(self@.decoded =~= evicted(center, old(self)@).decoded);
        assert(within_window(center, self@));
    }

    /// Takes one coded packet, already stripped of the wire header. Returns
    /// the datagrams of its block if the packet completes the block, and
    /// `None` if the packet is dropped, if the block needs more packets, or if
    /// the recovered block has no trustworthy directory.
    pub fn process_fec_packet(&mut self, packet: &[u8]) -> (datagrams: Option<Vec<Vec<u8>>>)
        requires
            old(self).wf(),
        ensures
            final(self).wf(),
            final(self).mode() == old(self).mode(),
            (final(self)@, opt_byte_seqs(datagrams)) == receive_step(
                old(self).mode(),
                old(self)@,
                packet@,
            ),
    {
        let (header, coded) = match self.mode {
            FecMode::Static { block_size, packet_size } => (
                FecHeader::new(block_size, packet_size),
                packet,
            ),
            FecMode::Dynamic => match FecHeader::from_bytes(packet) {
                Some(parsed) => parsed,
                None => {
                    return None;
                },
            },
        };
        assert(coded_part(self.mode, packet@) == Some((header, coded@)));
        if coded.len() == 0 {
            return None;
        }
        let id = coded[0];
        if self.decoded_blocks.contains(&id) {
            return None;
        }
        let fresh = header.shape();
        let symbol_size: u16 = match self.fec_decoders.get(&id) {
            Some(session) => session.symbol_size,
            None => match fresh {
                Some(shape) => shape.symbol_size,
                None => {
                    return None;
                },
            },
        };
        if coded.len() != PAYLOAD_ID_LEN + symbol_size as usize {
            return None;
        }
        let number: u64 = (coded[1] as u64) * 65536 + (coded[2] as u64) * 256 + (coded[3] as u64);
        if number >= SYMBOL_ID_LIMIT {
            return None;
        }
        let ghost before = self@;
        let ghost target = session_for(before, id, header).unwrap();
        let mut session = match self.fec_decoders.remove(&id) {
            Some(session) => session,
            None => DecodeSession::open(id, fresh.unwrap()),
        };
        assert(session.view() == target);
        let recovered = feed_decoder(&mut session.decoder, coded);
        match recovered {
            Some(block) => {
                let datagrams = build_packets(block.as_slice());
                self.decoded_blocks.insert(id);
                proof {
                    let mid = DecoderState {
                        sessions: before.sessions.remove(id),
                        decoded: before.decoded.insert(id),
                    };
                    assert(self@.sessions =~= mid.sessions);
                    assert(self@.decoded =~= mid.decoded);
                }
                self.evict(id);
                datagrams
            },
            None => {
                self.fec_decoders.insert(id, session);
                proof {
                    let mid = DecoderState {
                        sessions: before.sessions.insert(
                            id,
                            Session { shape: target.shape, packets: target.packets.push(coded@) },
                        ),
                        decoded: before.decoded,
                    };
                    assert(self@.sessions =~= mid.sessions);
                }
                self.evict(id);
                None
            },
        }
    }
}

/// A sound state holds at most 127 blocks in flight and at most 127 marks.
pub proof fn lemma_sound_is_small(state: DecoderState)
    requires
        sound(state),
    ensures
        state.sessions.dom().finite(),
        state.sessions.dom().len() <= WINDOW_SIZE,
        state.decoded.finite(),
        state.decoded.len() <= WINDOW_SIZE,
{
    let center = choose|center: u8| within_window(center, state);
    lemma_window_size(center, state.sessions.dom());
    lemma_window_size(center, state.decoded);
}

/// A decoder that has seen nothing is in a sound state, and every packet
/// leaves a sound state sound.
pub proof fn lemma_step_keeps_sound(mode: FecMode, state: DecoderState, packet: Seq<u8>)
    requires
        sound(state),
    ensures
        sound(initial_state()),
        sound(receive_step(mode, state, packet).0),
{
    assert(within_window(0u8, initial_state()));
    if accepted(mode, state, packet) {
        let id = block_of(mode, packet).unwrap();
        assert(within_window(id, receive_step(mode, state, packet).0));
    }
}

/// Deduplication: a packet of a block that is marked as recovered delivers
/// nothing and changes nothing.
pub proof fn lemma_recovered_block_is_deaf(mode: FecMode, state: DecoderState, packet: Seq<u8>)
    requires
        block_of(mode, packet) is Some,
        state.decoded.contains(block_of(mode, packet).unwrap()),
    ensures
        receive_step(mode, state, packet) == (state, None::<Seq<Seq<u8>>>),
{
}

/// A packet that completes its block, whatever the block's directory is
/// worth, leaves the block marked as recovered and no longer in flight.
pub proof fn lemma_completion_marks_block(mode: FecMode, state: DecoderState, packet: Seq<u8>)
    requires
        accepted(mode, state, packet),
        packet_outcome(mode, state, packet) is Some,
    ensures
        receive_step(mode, state, packet).0.decoded.contains(block_of(mode, packet).unwrap()),
        !receive_step(mode, state, packet).0.sessions.contains_key(
            block_of(mode, packet).unwrap(),
        ),
{
    lemma_center_in_window(block_of(mode, packet).unwrap());
}

/// Deduplication across two packets: once a packet has delivered the
/// datagrams of its block, the next packet of the same block delivers nothing
/// and changes nothing.
pub proof fn lemma_no_second_delivery(
    mode: FecMode,
    state: DecoderState,
    first: Seq<u8>,
    second: Seq<u8>,
)
    requires
        receive_step(mode, state, first).1 is Some,
        block_of(mode, second) == block_of(mode, first),
    ensures
        receive_step(mode, receive_step(mode, state, first).0, second) == (
            receive_step(mode, state, first).0,
            None::<Seq<Seq<u8>>>,
        ),
{
    lemma_center_in_window(block_of(mode, first).unwrap());
}

/// Loss tolerance from below: as long as fewer different symbols have arrived
/// for a block than the block has source symbols, the packet that is fed
/// delivers nothing, and the block stays in flight with the packet added.
pub proof fn lemma_too_few_symbols_wait(mode: FecMode, state: DecoderState, packet: Seq<u8>)
    requires
        accepted(mode, state, packet),
        ({
            let (header, coded) = coded_part(mode, packet).unwrap();
            let session = target_session(mode, state, packet);
            symbol_ids(session.packets.push(coded)).len() < symbol_count(
                session.shape.block_length as int,
                session.shape.symbol_size as int,
            )
        }),
    ensures
        receive_step(mode, state, packet).1 is None,
        receive_step(mode, state, packet).0.sessions.contains_key(block_of(mode, packet).unwrap()),
        receive_step(mode, state, packet).0.sessions[block_of(mode, packet).unwrap()].packets
            == target_session(mode, state, packet).packets.push(
            coded_part(mode, packet).unwrap().1,
        ),
{
    lemma_center_in_window(block_of(mode, packet).unwrap());
}

/// Eviction: after a packet has been fed to its block's session, nothing is
/// kept for any identifier outside the window of that block.
pub proof fn lemma_accepted_packet_evicts(
    mode: FecMode,
    state: DecoderState,
    packet: Seq<u8>,
    stale: u8,
)
    requires
        accepted(mode, state, packet),
        !in_window(block_of(mode, packet).unwrap(), stale),
    ensures
        !receive_step(mode, state, packet).0.sessions.contains_key(stale),
        !receive_step(mode, state, packet).0.decoded.contains(stale),
{
}

/// Eviction by count: once the identifier of an accepted packet is 64 to 192
/// steps ahead of a block's identifier, nothing is kept for that block.
pub proof fn lemma_stale_block_evicted(
    mode: FecMode,
    state: DecoderState,
    packet: Seq<u8>,
    stale: u8,
)
    requires
        accepted(mode, state, packet),
        64 <= forward_distance(stale, block_of(mode, packet).unwrap()) <= 192,
    ensures
        !receive_step(mode, state, packet).0.sessions.contains_key(stale),
        !receive_step(mode, state, packet).0.decoded.contains(stale),
{
    lemma_stale_outside_window(stale, block_of(mode, packet).unwrap());
}

/// A packet of a block inside the window of an accepted packet's block keeps
/// what was held for it, unless it is the accepted packet's own block.
pub proof fn lemma_window_keeps_neighbours(
    mode: FecMode,
    state: DecoderState,
    packet: Seq<u8>,
    other: u8,
)
    requires
        accepted(mode, state, packet),
        in_window(block_of(mode, packet).unwrap(), other),
        other != block_of(mode, packet).unwrap(),
    ensures
        receive_step(mode, state, packet).0.sessions.contains_key(other)
            == state.sessions.contains_key(other),
        state.sessions.contains_key(other) ==> receive_step(mode, state, packet).0.sessions[other]
            == state.sessions[other],
        receive_step(mode, state, packet).0.decoded.contains(other) == state.decoded.contains(
            other,
        ),
{
}

/// Recovery: if the packet that is fed lets the erasure code rebuild a block
/// that was built from datagrams it can list, those datagrams are delivered,
/// in their order.
pub proof fn lemma_rebuilt_block_delivers(
    mode: FecMode,
    state: DecoderState,
    packet: Seq<u8>,
    datagrams: Seq<Seq<u8>>,
    padding: int,
)
    requires
        accepted(mode, state, packet),
        listable(datagrams),
        padding >= 0,
        packet_outcome(mode, state, packet) == Some(block_bytes(datagrams, padding)),
    ensures
        receive_step(mode, state, packet).1 == Some(datagrams),
{
    lemma_directory_round_trip(datagrams, padding);
}

} // verus!
