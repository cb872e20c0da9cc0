//! The block payload directory: the trailer that lets a receiver cut a decoded
//! block back into the datagrams it was built from.
//!
//! A block is the datagrams one after another, then zero bytes up to a whole
//! number of symbols, then one 16-bit offset per datagram boundary (least
//! significant byte first, the first being the start of the first datagram),
//! then one byte that counts the offsets. The trailer is read from the end.

use crate::bytes::append_u16_le;
use crate::bytes::copy_range;
use crate::bytes::read_u16_le;
use crate::bytes::u16_from_le;
use crate::bytes::u16_le;
use crate::bytes::zeros;
use crate::codec::byte_seqs;
use vstd::prelude::*;

verus! {

/// Most datagrams that one block can list: the count byte holds one offset
/// more than there are datagrams.
pub const MAX_DATAGRAMS: usize = 254;

/// Largest offset, and so the largest amount of datagram bytes in a block.
pub const MAX_OFFSET: usize = 65535;

/// The datagrams one after another.
pub open spec fn concat(datagrams: Seq<Seq<u8>>) -> Seq<u8>
    decreases datagrams.len(),
{
    if datagrams.len() == 0 {
        Seq::<u8>::empty()
    } else {
        concat(datagrams.drop_last()) + datagrams.last()
    }
}

/// Where datagram number `i` starts in the block (and number `i - 1` ends).
pub open spec fn boundary(datagrams: Seq<Seq<u8>>, i: int) -> int {
    concat(datagrams.take(i)).len() as int
}

/// All boundaries of the datagrams, from the start of the first to the end of
/// the last.
pub open spec fn boundaries(datagrams: Seq<Seq<u8>>) -> Seq<u16> {
    Seq::new(datagrams.len() + 1, |i: int| boundary(datagrams, i) as u16)
}

/// The offsets as bytes, two for each, least significant first.
pub open spec fn offsets_bytes(offsets: Seq<u16>) -> Seq<u8>
    decreases offsets.len(),
{
    if offsets.len() == 0 {
        Seq::<u8>::empty()
    } else {
        offsets_bytes(offsets.drop_last()) + u16_le(offsets.last())
    }
}

/// The trailer for the given offsets: the offsets, then how many they are.
pub open spec fn directory_of(offsets: Seq<u16>) -> Seq<u8> {
    offsets_bytes(offsets).push(offsets.len() as u8)
}

/// Bytes taken by the trailer of a block of `count` datagrams.
pub open spec fn directory_len(count: int) -> int {
    2 * (count + 1) + 1
}

/// Bytes of a block of these datagrams before padding: the datagrams and the
/// trailer.
pub open spec fn content_len(datagrams: Seq<Seq<u8>>) -> int {
    concat(datagrams).len() + directory_len(datagrams.len() as int)
}

/// Whether a block can list these datagrams: no more of them than the count
/// byte admits, and every boundary within reach of a 16-bit offset.
pub open spec fn listable(datagrams: Seq<Seq<u8>>) -> bool {
    datagrams.len() <= MAX_DATAGRAMS && concat(datagrams).len() <= MAX_OFFSET
}

/// The block built from the datagrams with `padding` zero bytes between them
/// and the trailer.
pub open spec fn block_bytes(datagrams: Seq<Seq<u8>>, padding: int) -> Seq<u8> {
    concat(datagrams) + zeros(padding) + directory_of(boundaries(datagrams))
}

/// Offset number `i` of a trailer whose offsets begin at `start`.
pub open spec fn offset_at(block: Seq<u8>, start: int, i: int) -> int {
    u16_from_le(block[start + 2 * i], block[start + 2 * i + 1]) as int
}

/// Whether the `count` offsets that begin at `start` never step backwards and
/// never point past `body`, the length of the block without its count byte.
pub open spec fn offsets_in_order(block: Seq<u8>, start: int, count: int, body: int) -> bool {
    forall|i: int|
        0 <= i < count - 1 ==> offset_at(block, start, i) <= #[trigger] offset_at(
            block,
            start,
            i + 1,
        ) <= body
}

/// The datagrams that the offsets beginning at `start` cut out of the block.
pub open spec fn cut(block: Seq<u8>, start: int, count: int) -> Seq<Seq<u8>> {
    Seq::new(
        (if count > 0 {
            count - 1
        } else {
            0
        }) as nat,
        |i: int| block.subrange(offset_at(block, start, i), offset_at(block, start, i + 1)),
    )
}

/// The datagrams of a decoded block. There are none to be had if the block is
/// empty, if it is too short for the offsets it claims to hold, or if an
/// offset steps backwards or points past the end.
pub open spec fn split_block(block: Seq<u8>) -> Option<Seq<Seq<u8>>> {
    if block.len() == 0 {
        None
    } else {
        let count = block.last() as int;
        let body = block.len() - 1;
        if body < 2 * count {
            None
        } else if offsets_in_order(block, body - 2 * count, count, body) {
            Some(cut(block, body - 2 * count, count))
        } else {
            None
        }
    }
}

/// What an optional list of byte strings holds.
pub open spec fn opt_byte_seqs(v: Option<Vec<Vec<u8>>>) -> Option<Seq<Seq<u8>>> {
    match v {
        Some(list) => Some(byte_seqs(list@)),
        None => None,
    }
}

/// Appends the trailer for `offsets` to `block`.
pub fn append_directory(block: &mut Vec<u8>, offsets: &Vec<u16>)
    requires
        offsets@.len() <= 255,
    ensures
        final(block)@ == old(block)@ + directory_of(offsets@),
{
    let mut i: usize = 0;
    assert(offsets@.take(0) =~= Seq::<u16>::empty());
    assert(block@ =~= old(block)@ + offsets_bytes(offsets@.take(0)));
    while i < offsets.len()
        invariant
            i <= offsets@.len(),
            block@ == old(block)@ + offsets_bytes(offsets@.take(i as int)),
        decreases offsets@.len() - i,
    {
        append_u16_le(block, offsets[i]);
        proof {
            let next = offsets@.take(i + 1);
            assert(next.drop_last() =~= offsets@.take(i as int));
            assert(next.last() == offsets@[i as int]);
            assert(block@ =~= old(block)@ + offsets_bytes(next));
        }
        i += 1;
    }
    assert(offsets@.take(i as int) =~= offsets@);
    block.push(offsets.len() as u8);
    assert(block@ =~= old(block)@ + directory_of(offsets@));
}

/// Cuts a decoded block back into its datagrams. A block whose trailer cannot
/// be trusted gives `None`.
pub fn build_packets(decoded: &[u8]) -> (packets: Option<Vec<Vec<u8>>>)
    ensures
        opt_byte_seqs(packets) == split_block(decoded@),
{
    let len = decoded.len();
    if len == 0 {
        return None;
    }
    let count: usize = decoded[len - 1] as usize;
    let body: usize = len - 1;
    if body < 2 * count {
        return None;
    }
    let start: usize = body - 2 * count;
    let mut packets: Vec<Vec<u8>> = Vec::new();
    let mut i: usize = 0;
    while i + 1 < count
        invariant
            decoded@.len() > 0,
            count == decoded@.last(),
            body == decoded@.len() - 1,
            start + 2 * count == body,
            i == 0 || i < count,
            packets@.len() == i,
            forall|j: int|
                0 <= j < i ==> offset_at(decoded@, start as int, j) <= #[trigger] offset_at(
                    decoded@,
                    start as int,
                    j + 1,
                ) <= body,
            forall|j: int|
                0 <= j < i ==> (#[trigger] packets@[j])@ == decoded@.subrange(
                    offset_at(decoded@, start as int, j),
                    offset_at(decoded@, start as int, j + 1),
                ),
        decreases count - i,
    {
        let from: usize = read_u16_le(decoded, start + 2 * i) as usize;
        let to: usize = read_u16_le(decoded, start + 2 * i + 2) as usize;
        assert(from == offset_at(decoded@, start as int, i as int));
        assert(to == offset_at(decoded@, start as int, i + 1));
        if from > to || to > body {
            assert(!offsets_in_order(decoded@, start as int, count as int, body as int));
            return None;
        }
        packets.push(copy_range(decoded, from, to));
        i += 1;
    }
    assert(offsets_in_order(decoded@, start as int, count as int, body as int));
    assert(byte_seqs(packets@) =~= cut(decoded@, start as int, count as int));
    Some(packets)
}

/// Leaving out the last datagram shortens the concatenation by exactly it.
pub proof fn lemma_concat_push(datagrams: Seq<Seq<u8>>, last: Seq<u8>)
    ensures
        concat(datagrams.push(last)) == concat(datagrams) + last,
{
    assert(datagrams.push(last).drop_last() =~= datagrams);
}

/// Each boundary follows the one before it by the length of the datagram
/// between them, the first is zero and the last is the total length; the
/// datagram between two boundaries is the slice of the concatenation there.
pub proof fn lemma_boundaries(datagrams: Seq<Seq<u8>>, i: int)
    requires
        0 <= i < datagrams.len(),
    ensures
        boundary(datagrams, 0) == 0,
        boundary(datagrams, datagrams.len() as int) == concat(datagrams).len(),
        boundary(datagrams, i + 1) == boundary(datagrams, i) + datagrams[i].len(),
        boundary(datagrams, i + 1) <= concat(datagrams).len(),
        concat(datagrams).subrange(boundary(datagrams, i), boundary(datagrams, i + 1))
            == datagrams[i],
    decreases datagrams.len(),
{
    assert(datagrams.take(0) =~= Seq::<Seq<u8>>::empty());
    assert(datagrams.take(datagrams.len() as int) =~= datagrams);
    let head = datagrams.drop_last();
    let whole = concat(datagrams);
    assert(whole == concat(head) + datagrams.last());
    if i == datagrams.len() - 1 {
        assert(datagrams.take(i) =~= head);
        assert(datagrams.take(i + 1) =~= datagrams);
        assert(whole.subrange(concat(head).len() as int, whole.len() as int)
            =~= datagrams.last());
    } else {
        lemma_boundaries(head, i);
        assert(head.take(i) =~= datagrams.take(i));
        assert(head.take(i + 1) =~= datagrams.take(i + 1));
        assert(head[i] == datagrams[i]);
        assert(whole.subrange(boundary(datagrams, i), boundary(datagrams, i + 1)) =~= concat(
            head,
        ).subrange(boundary(head, i), boundary(head, i + 1)));
    }
}

/// The offsets take two bytes each, and each can be read back where it was
/// written.
pub proof fn lemma_offsets_bytes(offsets: Seq<u16>, i: int)
    requires
        0 <= i < offsets.len(),
    ensures
        offsets_bytes(offsets).len() == 2 * offsets.len(),
        u16_from_le(offsets_bytes(offsets)[2 * i], offsets_bytes(offsets)[2 * i + 1])
            == offsets[i],
    decreases offsets.len(),
{
    lemma_offsets_len(offsets);
    let head = offsets.drop_last();
    lemma_offsets_len(head);
    if i < offsets.len() - 1 {
        lemma_offsets_bytes(head, i);
    }
}

/// The offsets take two bytes each.
pub proof fn lemma_offsets_len(offsets: Seq<u16>)
    ensures
        offsets_bytes(offsets).len() == 2 * offsets.len(),
    decreases offsets.len(),
{
    if offsets.len() > 0 {
        lemma_offsets_len(offsets.drop_last());
    }
}

/// A block has the length of its parts.
pub proof fn lemma_block_len(datagrams: Seq<Seq<u8>>, padding: int)
    requires
        padding >= 0,
    ensures
        block_bytes(datagrams, padding).len() == content_len(datagrams) + padding,
{
    lemma_offsets_len(boundaries(datagrams));
}

/// Directory reconstruction: a block built from datagrams that it can list,
/// with any amount of padding, is cut back into exactly those datagrams, in
/// their order.
pub proof fn lemma_directory_round_trip(datagrams: Seq<Seq<u8>>, padding: int)
    requires
        listable(datagrams),
        padding >= 0,
    ensures
        split_block(block_bytes(datagrams, padding)) == Some(datagrams),
{
    let marks = boundaries(datagrams);
    let data = concat(datagrams);
    let block = block_bytes(datagrams, padding);
    let count = marks.len() as int;
    lemma_offsets_len(marks);
    let body = block.len() - 1;
    let start = data.len() + padding;
    assert(block.last() == count as u8);
    assert(body - 2 * count == start);
    assert forall|i: int| 0 <= i < count implies offset_at(block, start, i) == boundary(
        datagrams,
        i,
    ) && 0 <= boundary(datagrams, i) <= data.len() by {
        lemma_offsets_bytes(marks, i);
        assert(block[start + 2 * i] == offsets_bytes(marks)[2 * i]);
        assert(block[start + 2 * i + 1] == offsets_bytes(marks)[2 * i + 1]);
        if i == 0 {
            assert(datagrams.take(0) =~= Seq::<Seq<u8>>::empty());
        } else {
            lemma_boundaries(datagrams, i - 1);
        }
    }
    assert forall|i: int| 0 <= i < count - 1 implies offset_at(block, start, i)
        <= #[trigger] offset_at(block, start, i + 1) <= body by {
        lemma_boundaries(datagrams, i);
    }
    assert(offsets_in_order(block, start, count, body));
    let pieces = cut(block, start, count);
    assert(pieces.len() == datagrams.len());
    assert forall|i: int| 0 <= i < datagrams.len() implies pieces[i] == datagrams[i] by {
        lemma_boundaries(datagrams, i);
        assert(block.subrange(boundary(datagrams, i), boundary(datagrams, i + 1))
            =~= data.subrange(boundary(datagrams, i), boundary(datagrams, i + 1)));
    }
    assert(pieces =~= datagrams);
}

} // verus!
