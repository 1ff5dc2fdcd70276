//! The bounded queue between the capture side and the playback side.
//!
//! A frame is one left and one right sample. Samples travel as the 32-bit patterns of their
//! single-precision values: the queue moves them and never computes with them.
use ringbuf::{HeapRb, Rb};
use vstd::prelude::*;

use crate::formats::{quarter_second, quarter_second_frames};

verus! {

/// One left and one right sample, as bit patterns.
pub type Frame = (u32, u32);

/// The frame played where none is waiting: both bit patterns are those of zero.
pub open spec fn silence() -> Frame {
    (0, 0)
}

/// The ring buffer of the `ringbuf` crate that holds the waiting frames. Its insides are hidden;
/// what is known of it is said by [`waiting`], [`slots`] and the three functions below.
#[verifier::external_body]
pub struct FrameStore {
    ring: HeapRb<(u32, u32)>,
}

/// The frames that a store holds, the oldest first.
pub uninterp spec fn waiting(store: FrameStore) -> Seq<(u32, u32)>;

/// The number of frames that a store was made to hold.
pub uninterp spec fn slots(store: FrameStore) -> nat;

/// Calls `HeapRb::new`: an empty ring buffer of `capacity` places. The call panics on a capacity
/// of zero, and on one whose frames, eight bytes each, exceed what a vector can reserve; both are
/// left out. That the machine has the memory is taken for granted, as with every allocation.
#[verifier::external_body]
fn store_new(capacity: usize) -> (store: FrameStore)
    requires
        0 < capacity,
        capacity * 8 <= isize::MAX,
    ensures
        slots(store) == capacity,
        waiting(store) == Seq::<(u32, u32)>::empty(),
{
    FrameStore { ring: HeapRb::new(capacity) }
}

/// Calls `Rb::push`: appends the frame where a place is free, and otherwise hands it back and
/// leaves the ring buffer as it was.
#[verifier::external_body]
fn store_push(store: &mut FrameStore, frame: (u32, u32)) -> (pushed: Result<(), (u32, u32)>)
    ensures
        slots(*final(store)) == slots(*old(store)),
        pushed is Ok <==> waiting(*old(store)).len() < slots(*old(store)),
        pushed is Ok ==> waiting(*final(store)) == waiting(*old(store)).push(frame),
        pushed is Err ==> pushed->Err_0 == frame,
        pushed is Err ==> waiting(*final(store)) == waiting(*old(store)),
{
    store.ring.push(frame)
}

/// Calls `Rb::pop`: removes and returns the oldest frame, or returns `None` where there is none.
#[verifier::external_body]
fn store_pop(store: &mut FrameStore) -> (popped: Option<(u32, u32)>)
    ensures
        slots(*final(store)) == slots(*old(store)),
        popped is Some <==> waiting(*old(store)).len() > 0,
        popped is Some ==> popped->0 == waiting(*old(store))[0],
        popped is Some ==> waiting(*final(store)) == waiting(*old(store)).drop_first(),
        popped is None ==> waiting(*final(store)) == waiting(*old(store)),
{
    store.ring.pop()
}

/// The frames of an interleaved sample sequence; a trailing odd sample belongs to none.
pub open spec fn frames_of(samples: Seq<u32>) -> Seq<Frame> {
    Seq::new(samples.len() / 2, |i: int| (samples[2 * i], samples[2 * i + 1]))
}

/// What a queue of `capacity` places holds after `arriving` frames reach it: the oldest frames
/// stay, and those that find no place are lost.
pub open spec fn after_arrival(queue: Seq<Frame>, arriving: Seq<Frame>, capacity: nat) -> Seq<
    Frame,
> {
    let all = queue + arriving;
    if all.len() <= capacity {
        all
    } else {
        all.take(capacity as int)
    }
}

/// What is played when `count` frames are taken from a queue: the oldest frames in order, then
/// silence.
pub open spec fn played(queue: Seq<Frame>, count: nat) -> Seq<Frame> {
    Seq::new(
        count,
        |i: int|
            if i < queue.len() {
                queue[i]
            } else {
                silence()
            },
    )
}

/// What a queue holds once `count` frames were taken from it.
pub open spec fn after_playing(queue: Seq<Frame>, count: nat) -> Seq<Frame> {
    if count <= queue.len() {
        queue.skip(count as int)
    } else {
        Seq::empty()
    }
}

/// The queue of frames between capture and playback.
pub struct FrameRing {
    store: FrameStore,
}

impl FrameRing {
    /// The waiting frames, the oldest first.
    pub closed spec fn frames(&self) -> Seq<Frame> {
        waiting(self.store)
    }

    /// The number of frames that can wait.
    pub closed spec fn capacity(&self) -> nat {
        slots(self.store)
    }

    /// There is room for at least one frame, and no more wait than there is room for.
    pub open spec fn wf(&self) -> bool {
        0 < self.capacity() && self.frames().len() <= self.capacity()
    }

    /// An empty queue with room for `capacity` frames.
    pub fn new(capacity: usize) -> (ring: FrameRing)
        requires
            0 < capacity,
            capacity * 8 <= isize::MAX,
        ensures
            ring.wf(),
            ring.capacity() == capacity,
            ring.frames() == Seq::<Frame>::empty(),
    {
        FrameRing { store: store_new(capacity) }
    }

    /// An empty queue that holds a quarter of a second at `rate` frames per second.
    pub fn for_rate(rate: u32) -> (ring: FrameRing)
        requires
            0 < quarter_second(rate as nat),
            quarter_second(rate as nat) * 8 <= isize::MAX,
        ensures
            ring.wf(),
            ring.capacity() == quarter_second(rate as nat),
            ring.frames() == Seq::<Frame>::empty(),
    {
        FrameRing::new(quarter_second_frames(rate))
    }

    /// Queues the frames of an interleaved block. A frame that finds the queue full is lost, and
    /// so is a trailing odd sample.
    pub fn feed(&mut self, samples: &Vec<u32>)
        requires
            old(self).wf(),
        ensures
            final(self).wf(),
            final(self).capacity() == old(self).capacity(),
            final(self).frames() == after_arrival(
                old(self).frames(),
                frames_of(samples@),
                old(self).capacity(),
            ),
            forall|i: int|
                0 <= i && 2 * i + 1 < samples.len() && old(self).frames().len() + i < old(
                    self,
                ).capacity() ==> (#[trigger] final(self).frames()[old(self).frames().len() + i])
                    == (samples@[2 * i], samples@[2 * i + 1]),
    {
        let ghost queue = self.frames();
        let ghost capacity = self.capacity();
        let ghost arriving = frames_of(samples@);
        let count: usize = samples.len() / 2;
        let mut next: usize = 0;
        assert(queue + arriving.take(0) =~= queue);
        while next < count
            invariant
                next <= count,
                count == samples.len() / 2,
                arriving == frames_of(samples@),
                self.wf(),
                self.capacity() == capacity,
                self.frames() == after_arrival(queue, arriving.take(next as int), capacity),
            decreases count - next,
        {
            let frame: Frame = (samples[2 * next], samples[2 * next + 1]);
            let ghost before = self.frames();
            let pushed = store_push(&mut self.store, frame);
            proof {
                let so_far = arriving.take(next as int);
                assert(arriving.take(next + 1) =~= so_far.push(frame));
                assert(queue + so_far.push(frame) =~= (queue + so_far).push(frame));
                if pushed is Ok {
                    assert(before == queue + so_far);
                } else {
                    assert((queue + so_far.push(frame)).take(capacity as int) =~= before);
                }
            }
            next += 1;
        }
        assert(arriving.take(count as int) =~= arriving);
    }

    /// Takes the frames for an interleaved block of `samples` samples: the oldest waiting frames,
    /// and silence for those that are missing. A trailing odd sample gets no frame.
    pub fn take_block(&mut self, samples: usize) -> (block: Vec<Frame>)
        requires
            old(self).wf(),
        ensures
            final(self).wf(),
            final(self).capacity() == old(self).capacity(),
            block@ == played(old(self).frames(), (samples / 2) as nat),
            final(self).frames() == after_playing(old(self).frames(), (samples / 2) as nat),
            2 * block.len() <= samples < 2 * block.len() + 2,
            forall|i: int|
                0 <= i < block.len() ==> #[trigger] block@[i] == if i < old(self).frames().len() {
                    old(self).frames()[i]
                } else {
                    (0u32, 0u32)
                },
    {
        let ghost queue = self.frames();
        let ghost capacity = self.capacity();
        let count: usize = samples / 2;
        let mut block: Vec<Frame> = Vec::new();
        assert(queue.skip(0) =~= queue);
        while block.len() < count
            invariant
                block.len() <= count,
                count == samples / 2,
                self.wf(),
                self.capacity() == capacity,
                block@ =~= played(queue, block@.len()),
                self.frames() == after_playing(queue, block@.len()),
            decreases count - block.len(),
        {
            let ghost taken = block@.len();
            let ghost before = self.frames();
            let frame: Frame = match store_pop(&mut self.store) {
                Some(frame) => frame,
                None => (0, 0),
            };
            proof {
                if taken < queue.len() {
                    assert(before[0] == queue[taken as int]);
                    assert(before.drop_first() =~= queue.skip((taken + 1) as int));
                }
                assert(self.frames() =~= after_playing(queue, taken + 1));
            }
            block.push(frame);
        }
        block
    }
}

/// Nothing that waits is displaced or reordered by what arrives later, and the queue never
/// outgrows its capacity.
pub proof fn arrival_keeps_the_oldest(queue: Seq<Frame>, arriving: Seq<Frame>, capacity: nat)
    requires
        queue.len() <= capacity,
    ensures
        after_arrival(queue, arriving, capacity).len() <= capacity,
        queue.is_prefix_of(after_arrival(queue, arriving, capacity)),
        after_arrival(queue, arriving, capacity).is_prefix_of(queue + arriving),
{
    let after = after_arrival(queue, arriving, capacity);
    assert(after.take(queue.len() as int) =~= queue);
    assert((queue + arriving).take(after.len() as int) =~= after);
}

/// How the arriving frames are cut into blocks makes no difference.
pub proof fn arrival_in_two_blocks(
    queue: Seq<Frame>,
    first: Seq<Frame>,
    second: Seq<Frame>,
    capacity: nat,
)
    ensures
        after_arrival(after_arrival(queue, first, capacity), second, capacity) == after_arrival(
            queue,
            first + second,
            capacity,
        ),
{
    assert(queue + first + second =~= queue + (first + second));
    if (queue + first).len() > capacity {
        assert((queue + first).take(capacity as int) + second.take(0) =~= (queue + (first
            + second)).take(capacity as int));
        assert(((queue + first).take(capacity as int) + second).take(capacity as int) =~= (queue + (
        first + second)).take(capacity as int));
    }
}

/// How playback is cut into blocks makes no difference: two blocks in a row play what one block
/// of their joint length plays, and leave the same queue.
pub proof fn playing_in_two_blocks(queue: Seq<Frame>, first: nat, second: nat)
    ensures
        played(queue, first) + played(after_playing(queue, first), second) == played(
            queue,
            first + second,
        ),
        after_playing(after_playing(queue, first), second) == after_playing(queue, first + second),
{
    assert(played(queue, first) + played(after_playing(queue, first), second) =~= played(
        queue,
        first + second,
    ));
    assert(after_playing(after_playing(queue, first), second) =~= after_playing(
        queue,
        first + second,
    ));
}

/// First in, first out: frames that fit into the queue are played, unchanged and in order, right
/// after those that waited before them, and nothing is left.
pub proof fn what_arrives_is_played(queue: Seq<Frame>, arriving: Seq<Frame>, capacity: nat)
    requires
        queue.len() + arriving.len() <= capacity,
    ensures
        played(after_arrival(queue, arriving, capacity), queue.len() + arriving.len()) == queue
            + arriving,
        after_playing(after_arrival(queue, arriving, capacity), queue.len() + arriving.len())
            == Seq::<Frame>::empty(),
{
    assert(played(after_arrival(queue, arriving, capacity), queue.len() + arriving.len()) =~= queue
        + arriving);
    assert(after_playing(
        after_arrival(queue, arriving, capacity),
        queue.len() + arriving.len(),
    ) =~= Seq::<Frame>::empty());
}

/// A queue that has run dry plays silence and stays dry.
pub proof fn a_dry_queue_plays_silence(count: nat)
    ensures
        played(Seq::empty(), count) == Seq::new(count, |i: int| silence()),
        after_playing(Seq::empty(), count) == Seq::<Frame>::empty(),
{
    assert(played(Seq::empty(), count) =~= Seq::new(count, |i: int| silence()));
    assert(after_playing(Seq::<Frame>::empty(), count) =~= Seq::<Frame>::empty());
}

/// Every pair of samples of a block is a frame, the left sample first, however long the block is:
/// writing the frames out again, one after the other, gives the block, up to an odd sample at its
/// end.
pub proof fn a_block_is_its_frames(samples: Seq<u32>, at: int)
    requires
        0 <= at < samples.len(),
    ensures
        2 * frames_of(samples).len() <= samples.len() < 2 * frames_of(samples).len() + 2,
        at < 2 * frames_of(samples).len() && at % 2 == 0 ==> frames_of(samples)[at / 2].0
            == samples[at],
        at % 2 == 1 ==> at < 2 * frames_of(samples).len() && frames_of(samples)[at / 2].1
            == samples[at],
{
}

/// Where a stream of samples is cut between two frames makes no difference to the frames.
pub proof fn frames_of_joined_blocks(first: Seq<u32>, second: Seq<u32>)
    requires
        first.len() % 2 == 0,
    ensures
        frames_of(first + second) == frames_of(first) + frames_of(second),
        frames_of(first).len() + frames_of(first).len() == first.len(),
{
    assert(frames_of(first + second) =~= frames_of(first) + frames_of(second));
}

/// The queue is filled to the brim before anything is lost: it holds all frames that there are, or
/// as many as there are places.
pub proof fn nothing_is_lost_before_the_queue_is_full(
    queue: Seq<Frame>,
    arriving: Seq<Frame>,
    capacity: nat,
    at: int,
)
    requires
        queue.len() <= capacity,
        0 <= at < queue.len() + arriving.len(),
    ensures
        ({
            let after = after_arrival(queue, arriving, capacity);
            &&& after.len() == queue.len() + arriving.len() || after.len() == capacity
            &&& after.len() <= queue.len() + arriving.len()
            &&& at < queue.len() ==> at < after.len() && after[at] == queue[at]
            &&& queue.len() <= at < capacity ==> at < after.len() && after[at] == arriving[at
                - queue.len()]
        }),
{
}

/// A block that is played has the length that was asked for. It starts with the frames that waited,
/// and where none is left both channels are zero. What was not played waits on, in its order.
pub proof fn playing_goes_by_the_queue(queue: Seq<Frame>, count: nat, at: int)
    requires
        0 <= at,
    ensures
        played(queue, count).len() == count,
        at < count && at < queue.len() ==> played(queue, count)[at] == queue[at],
        at < count && at >= queue.len() ==> played(queue, count)[at].0 == 0 && played(
            queue,
            count,
        )[at].1 == 0,
        queue.len() <= count ==> after_playing(queue, count).len() == 0,
        queue.len() > count ==> after_playing(queue, count).len() + count == queue.len(),
        at + count < queue.len() ==> after_playing(queue, count)[at] == queue[at + count],
{
}

/// A captured sample comes out of the queue as it went in: on its own channel, after the frames that
/// waited and after those that arrived before it, if the queue had room for it.
pub proof fn a_captured_sample_is_played(
    queue: Seq<Frame>,
    samples: Seq<u32>,
    capacity: nat,
    count: nat,
    frame: int,
)
    requires
        0 <= frame,
        2 * frame + 1 < samples.len(),
        queue.len() + frame < capacity,
        queue.len() + frame < count,
    ensures
        ({
            let block = played(after_arrival(queue, frames_of(samples), capacity), count);
            &&& block[queue.len() + frame].0 == samples[2 * frame]
            &&& block[queue.len() + frame].1 == samples[2 * frame + 1]
        }),
{
}

} // verus!
