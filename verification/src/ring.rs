//! Index arithmetic of a ring of `capacity` slots in which frame `f` lives in
//! slot `f mod capacity`.

use vstd::prelude::*;
use vstd::arithmetic::div_mod::{
    lemma_fundamental_div_mod, lemma_fundamental_div_mod_converse, lemma_mod_bound,
    lemma_mod_multiples_vanish,
};

verus! {

/// The slot that holds frame `frame` in a ring of `capacity` slots.
pub open spec fn slot(frame: int, capacity: int) -> int {
    frame % capacity
}

/// Every frame has a slot inside the ring.
pub proof fn lemma_slot_in_ring(frame: int, capacity: int)
    requires
        capacity > 0,
    ensures
        0 <= slot(frame, capacity) < capacity,
{
    lemma_mod_bound(frame, capacity);
}

/// The first `capacity` frames occupy the slots of their own number.
pub proof fn lemma_slot_of_small(frame: int, capacity: int)
    requires
        0 <= frame < capacity,
    ensures
        slot(frame, capacity) == frame,
{
    lemma_fundamental_div_mod_converse(frame, capacity, 0, frame);
}

/// The slot after the one of `frame` holds `frame + 1`, wrapping to slot zero
/// at the end of the ring.
pub proof fn lemma_slot_of_next(frame: int, capacity: int)
    requires
        capacity > 0,
    ensures
        slot(frame + 1, capacity) == if slot(frame, capacity) + 1 == capacity {
            0
        } else {
            slot(frame, capacity) + 1
        },
{
    let q = frame / capacity;
    let r = frame % capacity;
    lemma_fundamental_div_mod(frame, capacity);
    lemma_mod_bound(frame, capacity);
    if r + 1 == capacity {
        assert(frame + 1 == (q + 1) * capacity + 0) by (nonlinear_arith)
            requires
                frame == capacity * q + r,
                r + 1 == capacity,
        ;
        lemma_fundamental_div_mod_converse(frame + 1, capacity, q + 1, 0);
    } else {
        assert(frame + 1 == q * capacity + (r + 1)) by (nonlinear_arith)
            requires
                frame == capacity * q + r,
        ;
        lemma_fundamental_div_mod_converse(frame + 1, capacity, q, r + 1);
    }
}

/// The slot before the one of `frame` holds `frame - 1`, wrapping to the last
/// slot at the start of the ring.
pub proof fn lemma_slot_of_previous(frame: int, capacity: int)
    requires
        capacity > 0,
    ensures
        slot(frame - 1, capacity) == if slot(frame, capacity) == 0 {
            capacity - 1
        } else {
            slot(frame, capacity) - 1
        },
{
    lemma_slot_of_next(frame - 1, capacity);
    lemma_slot_in_ring(frame - 1, capacity);
    lemma_slot_in_ring(frame, capacity);
}

/// Walking `steps` slots on from the slot of `frame`, wrapping as needed,
/// ends in the slot of `frame + steps`.
pub proof fn lemma_slot_of_offset(frame: int, steps: int, capacity: int)
    requires
        capacity > 0,
    ensures
        slot(slot(frame, capacity) + steps, capacity) == slot(frame + steps, capacity),
{
    let q = frame / capacity;
    lemma_fundamental_div_mod(frame, capacity);
    lemma_mod_multiples_vanish(q, frame % capacity + steps, capacity);
}

/// A walk that runs past the end of the ring by less than one round goes on
/// from slot zero.
pub proof fn lemma_slot_wraps(index: int, capacity: int)
    requires
        0 < capacity <= index < 2 * capacity,
    ensures
        slot(index, capacity) == index - capacity,
{
    lemma_fundamental_div_mod_converse(index, capacity, 1, index - capacity);
}

/// Two frames less than `capacity` apart never share a slot.
pub proof fn lemma_slot_unique(a: int, b: int, capacity: int)
    requires
        capacity > 0,
        -capacity < a - b < capacity,
        slot(a, capacity) == slot(b, capacity),
    ensures
        a == b,
{
    let qa = a / capacity;
    let qb = b / capacity;
    lemma_fundamental_div_mod(a, capacity);
    lemma_fundamental_div_mod(b, capacity);
    assert(qa == qb) by (nonlinear_arith)
        requires
            capacity > 0,
            -capacity < capacity * qa - capacity * qb < capacity,
    ;
}

} // verus!
