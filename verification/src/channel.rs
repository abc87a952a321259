//! The frame channel: an unbounded first-in first-out queue of frames from
//! the simulation to the render engine, whose closing ends the rendering.

use vstd::prelude::*;
use crate::frame::{Cell, Frame, NUM_CELLS};
use crate::render::{CellWrite, RenderEngine, diff_writes};

verus! {

/// The channel as a mathematical value: the frames under way, oldest first,
/// and whether the sending side has let go.
pub struct ChannelView {
    pub pending: Seq<Seq<Cell>>,
    pub closed: bool,
}

/// What the receiving side may see.
pub enum Observed {
    Frame(Seq<Cell>),
    Empty,
    Closed,
}

impl ChannelView {
    /// The channel after `frame` was handed to it: at the back of the queue,
    /// or dropped where the channel is closed.
    pub open spec fn sent(self, frame: Seq<Cell>) -> ChannelView {
        if self.closed {
            self
        } else {
            ChannelView { pending: self.pending.push(frame), ..self }
        }
    }

    /// The channel after each of `frames` was handed to it in turn.
    pub open spec fn sent_all(self, frames: Seq<Seq<Cell>>) -> ChannelView
        decreases frames.len(),
    {
        if frames.len() == 0 {
            self
        } else {
            self.sent_all(frames.drop_last()).sent(frames.last())
        }
    }

    /// What a receive sees: the oldest frame; with none under way, that the
    /// channel is closed, or that it is merely empty.
    pub open spec fn observed(self) -> Observed {
        if self.pending.len() > 0 {
            Observed::Frame(self.pending[0])
        } else if self.closed {
            Observed::Closed
        } else {
            Observed::Empty
        }
    }

    /// The channel after a receive.
    pub open spec fn received(self) -> ChannelView {
        if self.pending.len() > 0 {
            ChannelView { pending: self.pending.drop_first(), ..self }
        } else {
            self
        }
    }

    /// The channel after `n` receives.
    pub open spec fn received_times(self, n: nat) -> ChannelView
        decreases n,
    {
        if n == 0 {
            self
        } else {
            self.received_times((n - 1) as nat).received()
        }
    }

    /// The channel after the sending side has let go of it.
    pub open spec fn shut(self) -> ChannelView {
        ChannelView { closed: true, ..self }
    }

    /// Whether every frame under way is a whole grid.
    pub open spec fn wf(self) -> bool {
        forall|i: int| 0 <= i < self.pending.len() ==> (#[trigger] self.pending[i]).len() == NUM_CELLS
    }
}

/// Frames handed to an open channel join the queue at its back, in the order
/// in which they were handed over.
pub proof fn lemma_sent_all(channel: ChannelView, frames: Seq<Seq<Cell>>)
    requires
        !channel.closed,
    ensures
        channel.sent_all(frames) == (ChannelView { pending: channel.pending + frames, closed: false }),
    decreases frames.len(),
{
    if frames.len() == 0 {
        assert(channel.pending + frames =~= channel.pending);
    } else {
        lemma_sent_all(channel, frames.drop_last());
        assert((channel.pending + frames.drop_last()).push(frames.last()) =~= channel.pending + frames);
    }
}

/// `n` receives take the `n` oldest frames, or all of them where there are
/// fewer, and touch nothing else.
pub proof fn lemma_received_times(channel: ChannelView, n: nat)
    ensures
        channel.received_times(n).closed == channel.closed,
        n <= channel.pending.len() ==> channel.received_times(n).pending == channel.pending.skip(n as int),
        n >= channel.pending.len() ==> channel.received_times(n).pending.len() == 0,
    decreases n,
{
    if n == 0 {
        assert(channel.pending.skip(0) =~= channel.pending);
    } else {
        lemma_received_times(channel, (n - 1) as nat);
        if n <= channel.pending.len() {
            assert(channel.pending.skip(n - 1).drop_first() =~= channel.pending.skip(n as int));
        }
    }
}

/// Frames arrive in the order in which they were sent: after `frames` were
/// handed to an open, empty channel, the receive that follows `k` earlier
/// ones sees the frame sent as number `k`.
pub proof fn lemma_frames_arrive_in_send_order(channel: ChannelView, frames: Seq<Seq<Cell>>, k: nat)
    requires
        !channel.closed,
        channel.pending.len() == 0,
        k < frames.len(),
    ensures
        channel.sent_all(frames).received_times(k).observed() == Observed::Frame(frames[k as int]),
{
    lemma_sent_all(channel, frames);
    lemma_received_times(channel.sent_all(frames), k);
    assert(channel.pending + frames =~= frames);
}

/// A closed channel ends the receiving side after as many receives as frames
/// were still under way: that receive, and every later one, sees the closure.
pub proof fn lemma_closure_is_observed(channel: ChannelView, n: nat)
    requires
        n >= channel.pending.len(),
    ensures
        channel.shut().received_times(n).observed() == Observed::Closed,
{
    lemma_received_times(channel.shut(), n);
}

/// What a receive hands out.
#[derive(Debug)]
pub enum Received {
    Frame(Frame),
    Empty,
    Closed,
}

/// The frame channel.
#[derive(Debug)]
pub struct FrameChannel {
    queue: Vec<Frame>,
    closed: bool,
}

impl View for FrameChannel {
    type V = ChannelView;

    closed spec fn view(&self) -> ChannelView {
        ChannelView { pending: Seq::new(self.queue@.len(), |i: int| self.queue@[i]@), closed: self.closed }
    }
}

impl FrameChannel {
    /// Validity of the channel.
    pub open spec fn wf(&self) -> bool {
        self@.wf()
    }

    /// An open channel with no frame under way.
    pub fn new() -> (channel: FrameChannel)
        ensures
            channel.wf(),
            channel@ == (ChannelView { pending: Seq::empty(), closed: false }),
    {
        let channel = FrameChannel { queue: Vec::new(), closed: false };
        assert(channel@.pending =~= Seq::empty());
        channel
    }

    /// Hands `frame` to the channel. Returns whether it was taken; a closed
    /// channel drops it.
    pub fn send(&mut self, frame: Frame) -> (taken: bool)
        requires
            old(self).wf(),
            frame.wf(),
        ensures
            final(self).wf(),
            taken == !old(self)@.closed,
            final(self)@ == old(self)@.sent(frame@),
    {
        if self.closed {
            false
        } else {
            self.queue.push(frame);
            assert(self@.pending =~= old(self)@.pending.push(frame@));
            true
        }
    }

    /// Takes the oldest frame out of the channel; with none under way, says
    /// whether the channel is closed or merely empty.
    pub fn recv(&mut self) -> (received: Received)
        requires
            old(self).wf(),
        ensures
            final(self).wf(),
            final(self)@ == old(self)@.received(),
            match received {
                Received::Frame(frame) => frame.wf() && old(self)@.observed() == Observed::Frame(frame@),
                Received::Empty => old(self)@.observed() == Observed::Empty,
                Received::Closed => old(self)@.observed() == Observed::Closed,
            },
    {
        if self.queue.len() > 0 {
            assert(old(self)@.pending[0] == self.queue@[0]@);
            let frame = self.queue.remove(0);
            assert(self@.pending =~= old(self)@.pending.drop_first()) by {
                assert forall|i: int| 0 <= i < self@.pending.len() implies self@.pending[i] == old(self)@.pending[i + 1] by {
                    assert(self.queue@[i] == old(self).queue@[i + 1]);
                }
            }
            assert forall|i: int| 0 <= i < self@.pending.len() implies (#[trigger] self@.pending[i]).len() == NUM_CELLS by {
                assert(self@.pending[i] == old(self)@.pending[i + 1]);
            }
            Received::Frame(frame)
        } else if self.closed {
            Received::Closed
        } else {
            Received::Empty
        }
    }

    /// Lets go of the sending side: frames under way still arrive, later ones
    /// are dropped.
    pub fn close(&mut self)
        ensures
            final(self)@ == old(self)@.shut(),
    {
        self.closed = true;
    }

    /// Whether the sending side has let go.
    pub fn is_closed(&self) -> (closed: bool)
        ensures
            closed == self@.closed,
    {
        self.closed
    }

    /// How many frames are under way.
    pub fn len(&self) -> (n: usize)
        ensures
            n == self@.pending.len(),
    {
        self.queue.len()
    }
}

/// The writes for frame number `i` of `pending` when the frames are rendered
/// in order by an engine whose last frame was `last`: the first against
/// `last`, as a full redraw where the engine is `fresh`, each later one
/// against the frame before it.
pub open spec fn batch_for(last: Seq<Cell>, fresh: bool, pending: Seq<Seq<Cell>>, i: int) -> Seq<CellWrite> {
    if i == 0 {
        diff_writes(last, pending[0], fresh)
    } else {
        diff_writes(pending[i - 1], pending[i], false)
    }
}

/// Renders every frame under way, oldest first, and empties the channel.
/// Returns the writes of each frame, in the order of the frames, and whether
/// the channel is closed, which ends the rendering. The screen then shows
/// the newest of the frames, or what it showed before where there was none.
pub fn render_pending(engine: &mut RenderEngine, channel: &mut FrameChannel) -> (out: (Vec<Vec<CellWrite>>, bool))
    requires
        old(engine).wf(),
        old(channel).wf(),
    ensures
        final(engine).wf(),
        final(channel).wf(),
        final(channel)@ == (ChannelView { pending: Seq::empty(), closed: old(channel)@.closed }),
        out.1 == old(channel)@.closed,
        out.0@.len() == old(channel)@.pending.len(),
        forall|i: int|
            0 <= i < out.0@.len() ==> (#[trigger] out.0@[i])@ == batch_for(
                old(engine).last(),
                old(engine).is_fresh(),
                old(channel)@.pending,
                i,
            ),
        old(channel)@.pending.len() > 0 ==> final(engine).last() == old(channel)@.pending.last()
            && final(engine).screen() == old(channel)@.pending.last() && !final(engine).is_fresh(),
        old(channel)@.pending.len() == 0 ==> final(engine).last() == old(engine).last() && final(engine).is_fresh()
            == old(engine).is_fresh() && final(engine).screen() == old(engine).screen(),
{
    let mut batches: Vec<Vec<CellWrite>> = Vec::new();
    let ghost start = channel@;
    loop
        invariant
            engine.wf(),
            channel.wf(),
            start == old(channel)@,
            channel@.closed == start.closed,
            batches@.len() + channel@.pending.len() == start.pending.len(),
            channel@.pending == start.pending.skip(batches@.len() as int),
            forall|i: int|
                0 <= i < batches@.len() ==> (#[trigger] batches@[i])@ == batch_for(
                    old(engine).last(),
                    old(engine).is_fresh(),
                    start.pending,
                    i,
                ),
            batches@.len() > 0 ==> engine.last() == start.pending[batches@.len() - 1] && engine.screen()
                == engine.last() && !engine.is_fresh(),
            batches@.len() == 0 ==> engine.last() == old(engine).last() && engine.is_fresh() == old(
                engine,
            ).is_fresh() && engine.screen() == old(engine).screen(),
        decreases channel@.pending.len(),
    {
        let ghost before = channel@;
        let ghost done = batches@;
        match channel.recv() {
            Received::Frame(frame) => {
                assert(before.pending[0] == start.pending[done.len() as int]);
                let batch = engine.present(frame);
                batches.push(batch);
                assert(before.pending.drop_first() =~= start.pending.skip(done.len() as int + 1));
                assert forall|i: int| 0 <= i < batches@.len() implies (#[trigger] batches@[i])@ == batch_for(
                    old(engine).last(),
                    old(engine).is_fresh(),
                    start.pending,
                    i,
                ) by {
                    if i < done.len() {
                        assert(batches@[i] == done[i]);
                    }
                }
            },
            Received::Empty => {
                assert(channel@.pending =~= Seq::empty());
                return (batches, false);
            },
            Received::Closed => {
                assert(channel@.pending =~= Seq::empty());
                return (batches, true);
            },
        }
    }
}

} // verus!
