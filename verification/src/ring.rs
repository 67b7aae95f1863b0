//! The rings of samples between threads, from the `rtrb` crate. A sample is
//! kept as the bits of its floating-point value.
//!
//! The other end of a ring works at the same time, so how full it is at a moment
//! is left open. But the other end can only add to what an end has counted: so
//! many samples can be written, or read, until the end itself uses them up. And
//! the samples come out as they went in, in their order: each ring has one stream
//! of samples, and both ends follow it.
use vstd::prelude::*;

verus! {

/// The writing end of a ring.
#[verifier::external_type_specification]
#[verifier::external_body]
#[verifier::reject_recursive_types(T)]
pub struct ExProducer<T>(rtrb::Producer<T>);

/// The reading end of a ring.
#[verifier::external_type_specification]
#[verifier::external_body]
#[verifier::reject_recursive_types(T)]
pub struct ExConsumer<T>(rtrb::Consumer<T>);

/// All samples that were written at an end, in order.
pub uninterp spec fn written(p: rtrb::Producer<u32>) -> Seq<u32>;

/// The places of the ring that an end writes to.
pub uninterp spec fn places(p: rtrb::Producer<u32>) -> nat;

/// All samples that were read at an end, in order.
pub uninterp spec fn taken(c: rtrb::Consumer<u32>) -> Seq<u32>;

/// The places of the ring that an end reads from.
pub uninterp spec fn places_behind(c: rtrb::Consumer<u32>) -> nat;

/// What passes through the ring that an end writes to: the samples by their
/// number, from the first one that is written.
pub uninterp spec fn stream_of(p: rtrb::Producer<u32>) -> Map<int, u32>;

/// What passes through the ring that an end reads from.
pub uninterp spec fn stream_behind(c: rtrb::Consumer<u32>) -> Map<int, u32>;

/// Whether so many free places are counted at a writing end, between its last
/// write and its next one.
pub uninterp spec fn counts_free(p: rtrb::Producer<u32>, n: nat) -> bool;

/// Whether so many samples are counted at a reading end that wait for it, between
/// its last read and its next one.
pub uninterp spec fn counts_waiting(c: rtrb::Consumer<u32>, n: nat) -> bool;

/// Whether samples are those of a stream from a number on.
pub open spec fn carried(samples: Seq<u32>, from: nat, stream: Map<int, u32>) -> bool {
    forall|i: int| 0 <= i < samples.len() ==> #[trigger] samples[i] == stream[from + i]
}

/// How many of the next `n` samples come in front of the end of a ring with so many
/// places, when so many were read from it: the ring is walked around.
pub open spec fn before_end(places: nat, read: nat, n: nat) -> nat {
    if places == 0 || n <= places - read % places {
        n
    } else {
        (places - read % places) as nat
    }
}

/// Whether all that an end has written is what passes through its ring.
pub open spec fn sends(p: rtrb::Producer<u32>) -> bool {
    carried(written(p), 0, stream_of(p))
}

/// Whether all that an end has read is what passes through its ring.
pub open spec fn receives(c: rtrb::Consumer<u32>) -> bool {
    carried(taken(c), 0, stream_behind(c))
}

/// `rtrb::RingBuffer::new` makes the two ends of one empty ring with so many
/// places.
#[verifier::external_body]
fn make_ring(capacity: usize) -> (r: (rtrb::Producer<u32>, rtrb::Consumer<u32>))
    requires
        capacity <= 0x0fff_ffff,
    ensures
        written(r.0) == Seq::<u32>::empty(),
        places(r.0) == capacity,
        taken(r.1) == Seq::<u32>::empty(),
        places_behind(r.1) == capacity,
        stream_of(r.0) == stream_behind(r.1),
{
    rtrb::RingBuffer::new(capacity)
}

/// `rtrb::Producer::slots` counts the free places, which are never more than the
/// ring has. The reader may free more at any time; how many it has freed is left
/// open.
#[verifier::external_body]
fn slots_free(p: &rtrb::Producer<u32>) -> (r: usize)
    ensures
        r <= places(*p),
        counts_free(*p, r as nat),
{
    p.slots()
}

/// `rtrb::Producer::push_entire_slice` writes all samples in order, or none
/// where too few places are free. Places that were counted stay free until then;
/// whether more are free is left open, but for lists that are empty or longer than
/// the ring. What is written goes on with what passes through the ring.
#[verifier::external_body]
fn push_all(p: &mut rtrb::Producer<u32>, samples: &Vec<u32>) -> (r: bool)
    ensures
        places(*final(p)) == places(*old(p)),
        stream_of(*final(p)) == stream_of(*old(p)),
        r ==> carried(samples@, written(*old(p)).len(), stream_of(*final(p))),
        r ==> written(*final(p)) == written(*old(p)) + samples@,
        !r ==> written(*final(p)) == written(*old(p)),
        samples@.len() == 0 ==> r,
        samples@.len() > places(*old(p)) ==> !r,
        forall|n: nat| #[trigger] counts_free(*old(p), n) && samples@.len() <= n ==> r,
{
    p.push_entire_slice(samples).is_ok()
}

/// `rtrb::Consumer::slots` counts the samples that wait, which are never more than
/// the ring has places. The writer may add more at any time; how many it has added
/// is left open.
#[verifier::external_body]
fn slots_waiting(c: &rtrb::Consumer<u32>) -> (r: usize)
    ensures
        r <= places_behind(*c),
        counts_waiting(*c, r as nat),
{
    c.slots()
}

/// `rtrb::Consumer::read_chunk` with `as_slices` and `commit_all` takes the next
/// `n` samples that pass through the ring, in two pieces: those in front of its end
/// and those that go around it; none where fewer wait. Samples that were counted wait until then; whether
/// more wait is left open, but for no samples and for more than the ring has
/// places.
#[verifier::external_body]
fn take_chunk(c: &mut rtrb::Consumer<u32>, n: usize) -> (r: Option<(Vec<u32>, Vec<u32>)>)
    ensures
        places_behind(*final(c)) == places_behind(*old(c)),
        stream_behind(*final(c)) == stream_behind(*old(c)),
        match r {
            Some(pieces) => {
                &&& pieces.0@.len() + pieces.1@.len() == n
                &&& pieces.0@.len() == before_end(
                    places_behind(*old(c)),
                    taken(*old(c)).len(),
                    n as nat,
                )
                &&& carried(
                    pieces.0@ + pieces.1@,
                    taken(*old(c)).len(),
                    stream_behind(*final(c)),
                )
                &&& taken(*final(c)) == taken(*old(c)) + pieces.0@ + pieces.1@
            },
            None => taken(*final(c)) == taken(*old(c)),
        },
        n == 0 ==> r is Some,
        n > places_behind(*old(c)) ==> r is None,
        forall|m: nat| #[trigger] counts_waiting(*old(c), m) && n <= m ==> r is Some,
{
    let chunk = c.read_chunk(n).ok()?;
    let (first, second) = chunk.as_slices();
    let pieces = (first.to_vec(), second.to_vec());
    chunk.commit_all();
    Some(pieces)
}

/// An empty ring with so many places.
pub fn new_ring(capacity: usize) -> (r: (rtrb::Producer<u32>, rtrb::Consumer<u32>))
    requires
        capacity <= 0x0fff_ffff,
    ensures
        written(r.0) == Seq::<u32>::empty(),
        places(r.0) == capacity,
        taken(r.1) == Seq::<u32>::empty(),
        places_behind(r.1) == capacity,
        stream_of(r.0) == stream_behind(r.1),
        sends(r.0) && receives(r.1),
{
    make_ring(capacity)
}

/// Counts the free places of a ring: so many samples can be written to it next.
pub fn free_places(p: &rtrb::Producer<u32>) -> (r: usize)
    ensures
        r <= places(*p),
        counts_free(*p, r as nat),
{
    slots_free(p)
}

/// Counts the samples that wait in a ring: so many can be read from it next.
pub fn waiting(c: &rtrb::Consumer<u32>) -> (r: usize)
    ensures
        r <= places_behind(*c),
        counts_waiting(*c, r as nat),
{
    slots_waiting(c)
}

/// Writes samples, all or none: none where too few places are free. Tells
/// whether they were written.
pub fn write_samples(p: &mut rtrb::Producer<u32>, samples: &Vec<u32>) -> (r: bool)
    ensures
        places(*final(p)) == places(*old(p)),
        stream_of(*final(p)) == stream_of(*old(p)),
        sends(*old(p)) ==> sends(*final(p)),
        written(*final(p)) == if r {
            written(*old(p)) + samples@
        } else {
            written(*old(p))
        },
        samples@.len() == 0 ==> r,
        samples@.len() > places(*old(p)) ==> !r,
        forall|n: nat| #[trigger] counts_free(*old(p), n) && samples@.len() <= n ==> r,
{
    push_all(p, samples)
}

/// Takes the next samples that pass through a ring, in two pieces: those in front of
/// its end and those that go around it; none where fewer wait.
pub fn read_samples(c: &mut rtrb::Consumer<u32>, n: usize) -> (r: Option<(Vec<u32>, Vec<u32>)>)
    ensures
        places_behind(*final(c)) == places_behind(*old(c)),
        stream_behind(*final(c)) == stream_behind(*old(c)),
        receives(*old(c)) ==> receives(*final(c)),
        match r {
            Some(pieces) => {
                &&& pieces.0@.len() + pieces.1@.len() == n
                &&& pieces.0@.len() == before_end(
                    places_behind(*old(c)),
                    taken(*old(c)).len(),
                    n as nat,
                )
                &&& taken(*final(c)) == taken(*old(c)) + pieces.0@ + pieces.1@
            },
            None => taken(*final(c)) == taken(*old(c)),
        },
        n == 0 ==> r is Some,
        n > places_behind(*old(c)) ==> r is None,
        forall|m: nat| #[trigger] counts_waiting(*old(c), m) && n <= m ==> r is Some,
{
    let ghost before = taken(*c);
    let r = take_chunk(c, n);
    proof {
        if let Some(pieces) = &r {
            let new = pieces.0@ + pieces.1@;
            assert(taken(*c) =~= before + new);
            assert forall|i: int|
                carried(before, 0, stream_behind(*c)) && 0 <= i < taken(*c).len() implies #[trigger] taken(
                *c,
            )[i] == stream_behind(*c)[0 + i] by {
                if i >= before.len() {
                    assert(taken(*c)[i] == new[i - before.len()]);
                }
            }
        }
    }
    r
}

/// Throws away what waits in a ring: all the samples that are counted.
pub fn drain(c: &mut rtrb::Consumer<u32>)
    ensures
        places_behind(*final(c)) == places_behind(*old(c)),
        stream_behind(*final(c)) == stream_behind(*old(c)),
        receives(*old(c)) ==> receives(*final(c)),
        taken(*old(c)).is_prefix_of(taken(*final(c))),
        exists|n: nat| #[trigger]
            counts_waiting(*old(c), n) && taken(*final(c)).len() == taken(*old(c)).len() + n,
{
    let n = waiting(c);
    if n > 0 {
        let _ = read_samples(c, n);
    }
}

/// A ring keeps the order: what comes out at one end is what went in at the
/// other, sample by sample.
pub proof fn law_ring_keeps_order(p: rtrb::Producer<u32>, c: rtrb::Consumer<u32>, i: int)
    requires
        stream_of(p) == stream_behind(c),
        sends(p),
        receives(c),
        0 <= i < written(p).len(),
        i < taken(c).len(),
    ensures
        taken(c)[i] == written(p)[i],
{
}

} // verus!
