//! Block identifiers: an 8-bit counter that wraps, compared on a circle.

use vstd::prelude::*;
use vstd::set_lib::lemma_int_range;
use vstd::set_lib::lemma_len_subset;
use vstd::set_lib::lemma_map_size_bound;
use vstd::set_lib::set_int_range;

verus! {

/// How far, on either side, an identifier may lie from the one just processed
/// and still keep its state.
pub const WINDOW_HALF_WIDTH: u8 = 64;

/// The identifier that follows `id`, wrapping from 255 to 0.
pub open spec fn next_id(id: u8) -> u8 {
    if id == 255 {
        0u8
    } else {
        (id + 1) as u8
    }
}

/// Steps needed to reach `to` from `from` when counting upwards with wraparound.
pub open spec fn forward_distance(from: u8, to: u8) -> int {
    if to >= from {
        to - from
    } else {
        to - from + 256
    }
}

/// Length of the shorter of the two arcs between `a` and `b`.
pub open spec fn circular_distance(a: u8, b: u8) -> int {
    if forward_distance(a, b) <= forward_distance(b, a) {
        forward_distance(a, b)
    } else {
        forward_distance(b, a)
    }
}

/// Lower edge of the window around `center`: `center - 64` modulo 256.
pub open spec fn window_low(center: u8) -> int {
    if center >= 64 {
        center - 64
    } else {
        center + 192
    }
}

/// Upper edge of the window around `center`: `center + 64` modulo 256.
pub open spec fn window_high(center: u8) -> int {
    if center < 192 {
        center + 64
    } else {
        center - 192
    }
}

/// Whether `id` lies strictly between the two edges of the window around
/// `center`. The window wraps when its lower edge is not below its upper edge.
pub open spec fn in_window(center: u8, id: u8) -> bool {
    if window_high(center) > window_low(center) {
        window_low(center) < id && id < window_high(center)
    } else {
        window_low(center) < id || id < window_high(center)
    }
}

/// The identifiers that keep their state when `center` has just been processed.
pub open spec fn window(center: u8) -> Set<u8> {
    Set::new(|id: u8| in_window(center, id))
}

/// Most identifiers that a window holds: 63 on either side of its center, and
/// the center.
pub const WINDOW_SIZE: usize = 127;

/// A block identifier with its circular arithmetic.
#[derive(Clone, Copy, Debug, PartialEq, Eq, Structural)]
pub struct BlockId {
    pub value: u8,
}

impl BlockId {
    pub fn new(value: u8) -> (id: BlockId)
        ensures
            id.value == value,
    {
        BlockId { value }
    }

    /// The identifier of the block that follows this one.
    pub fn next(self) -> (id: BlockId)
        ensures
            id.value == next_id(self.value),
    {
        BlockId { value: self.value.wrapping_add(1) }
    }

    /// Steps from this identifier up to `to`, counting with wraparound.
    pub fn forward_distance(self, to: BlockId) -> (d: u8)
        ensures
            d == forward_distance(self.value, to.value),
    {
        to.value.wrapping_sub(self.value)
    }

    /// Length of the shorter arc between this identifier and `other`.
    pub fn distance(self, other: BlockId) -> (d: u8)
        ensures
            d == circular_distance(self.value, other.value),
            d <= 128,
    {
        let up: u8 = other.value.wrapping_sub(self.value);
        let down: u8 = self.value.wrapping_sub(other.value);
        if up <= down {
            up
        } else {
            down
        }
    }

    /// Whether `id` keeps its state when this identifier is the one just processed.
    pub fn in_window(self, id: BlockId) -> (r: bool)
        ensures
            r == in_window(self.value, id.value),
    {
        let high: u8 = self.value.wrapping_add(WINDOW_HALF_WIDTH);
        let low: u8 = self.value.wrapping_sub(WINDOW_HALF_WIDTH);
        if high > low {
            low < id.value && id.value < high
        } else {
            low < id.value || id.value < high
        }
    }
}

/// An identifier is inside the window exactly when it is fewer than 64 steps
/// away from the center, in either direction.
pub proof fn lemma_window_is_circular_distance(center: u8, id: u8)
    ensures
        in_window(center, id) <==> circular_distance(center, id) < 64,
{
}

/// The window is symmetric: each of two identifiers is inside the other's
/// window, or neither is.
pub proof fn lemma_window_symmetric(a: u8, b: u8)
    ensures
        in_window(a, b) <==> in_window(b, a),
{
}

/// The center is always inside its own window.
pub proof fn lemma_center_in_window(center: u8)
    ensures
        in_window(center, center),
{
}

/// An identifier that the counter has left 64 to 192 steps behind lies outside
/// the window of the current one.
pub proof fn lemma_stale_outside_window(stale: u8, center: u8)
    requires
        64 <= forward_distance(stale, center) <= 192,
    ensures
        !in_window(center, stale),
{
}

/// The identifier `steps` steps above the lower edge of the window of `center`.
pub open spec fn window_member(center: u8, steps: int) -> u8 {
    ((window_low(center) + steps) % 256) as u8
}

/// A window holds at most 127 identifiers, and so does any set inside it.
pub proof fn lemma_window_size(center: u8, ids: Set<u8>)
    requires
        ids.subset_of(window(center)),
    ensures
        window(center).finite(),
        window(center).len() <= WINDOW_SIZE,
        ids.finite(),
        ids.len() <= WINDOW_SIZE,
{
    let steps = set_int_range(1, 128);
    let place = |s: int| window_member(center, s);
    lemma_int_range(1, 128);
    assert forall|id: u8| window(center).contains(id) implies steps.map(place).contains(id) by {
        let s = forward_distance(window_low(center) as u8, id);
        assert(steps.contains(s));
        assert(place(s) == id);
    }
    assert forall|id: u8| steps.map(place).contains(id) implies window(center).contains(id) by {
        let s = choose|s: int| steps.contains(s) && place(s) == id;
        assert(in_window(center, window_member(center, s)));
    }
    assert(steps.map(place) =~= window(center));
    lemma_map_size_bound(steps, window(center), place);
    lemma_len_subset(ids, window(center));
}

} // verus!
