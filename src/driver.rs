use vstd::prelude::*;
use crate::pixel::PixelBuffer;

verus! {

/// What a frame consumer asks of the walk after seeing a frame.
#[derive(PartialEq, Eq, Structural, Clone, Copy, Debug)]
pub enum Flow {
    Continue,
    Stop,
}

/// One answered frame of a walk: the frame, its index, and the consumer's answer.
pub type Answered = ((u32, u32, Seq<u8>), usize, Flow);

/// A consumer of the frames of one streaming walk. It is handed each frame in
/// decode order with its 0-based index and says whether the walk goes on.
pub trait FrameSink {
    /// Every frame handed to this consumer so far, with its index and answer.
    spec fn log(&self) -> Seq<Answered>;

    /// What the consumer was set up with; handing it frames does not change it.
    spec fn setup(&self) -> int;

    fn accept(&mut self, frame: &PixelBuffer, index: usize) -> (r: Flow)
        ensures
            final(self).log() == old(self).log().push((frame@, index, r)),
            final(self).setup() == old(self).setup(),
    ;
}

/// What a walk added to a consumer's log.
pub open spec fn handed(before: Seq<Answered>, after: Seq<Answered>) -> Seq<Answered> {
    after.subrange(before.len() as int, after.len() as int)
}

/// A walk over `stream` that took the consumer's log from `before` to `after`
/// and returned `Ok(completed)`: frame k of the stream went out with index k,
/// in order; only the last answer may be `Stop`; a complete walk handed out
/// every frame and was never stopped; a walk that was not complete was stopped
/// by the last answer, unless there was nothing to stream.
pub open spec fn walked(
    stream: Seq<(u32, u32, Seq<u8>)>,
    before: Seq<Answered>,
    after: Seq<Answered>,
    completed: bool,
) -> bool {
    let out = handed(before, after);
    &&& before.len() <= after.len()
    &&& after.subrange(0, before.len() as int) == before
    &&& out.len() <= stream.len()
    &&& forall|k: int| 0 <= k < out.len() ==> (#[trigger] out[k]).0 == stream[k] && out[k].1 == k
    &&& forall|k: int| 0 <= k < out.len() - 1 ==> (#[trigger] out[k]).2 == Flow::Continue
    &&& completed ==> out.len() == stream.len()
        && (out.len() == 0 || out.last().2 == Flow::Continue)
    &&& !completed ==> stream.len() == 0 || (out.len() > 0 && out.last().2 == Flow::Stop)
}

pub open spec fn view_of(b: Option<PixelBuffer>) -> Option<(u32, u32, Seq<u8>)> {
    match b {
        Some(b) => Some(b@),
        None => None,
    }
}

/// Frame numbers of `frame` count from 1, and 0 stands for 1: the stream
/// position (0-based) that a frame number asks for.
pub open spec fn stream_position(idx: int) -> int {
    if idx <= 0 {
        0
    } else {
        idx - 1
    }
}

/// The frame that `frame(idx)` picks from the frames of a full walk: the one at
/// the requested position, or the last one when the walk is shorter.
pub open spec fn frame_at_seq<V>(frames: Seq<V>, idx: int) -> Option<V> {
    if frames.len() == 0 {
        None
    } else if stream_position(idx) < frames.len() {
        Some(frames[stream_position(idx)])
    } else {
        Some(frames.last())
    }
}

/// Keeps the most recent frame of a walk and stops it at the requested position.
pub struct Selector {
    target: usize,
    last: Option<PixelBuffer>,
    answered: Ghost<Seq<Answered>>,
}

/// The last frame in a log, if any.
pub open spec fn last_of(log: Seq<Answered>) -> Option<(u32, u32, Seq<u8>)> {
    if log.len() == 0 {
        None
    } else {
        Some(log.last().0)
    }
}

impl Selector {
    #[verifier::type_invariant]
    spec fn inv(&self) -> bool {
        &&& view_of(self.last) == last_of(self.answered@)
        &&& forall|k: int| 0 <= k < self.answered@.len() ==>
            ((#[trigger] self.answered@[k]).2 == Flow::Stop <==> self.answered@[k].1 == self.target)
    }

    pub open spec fn target(&self) -> int {
        self.setup()
    }

    /// A selector for frame number `idx` (see `stream_position`).
    pub fn new(idx: usize) -> (r: Selector)
        ensures
            r.target() == stream_position(idx as int),
            r.log() == Seq::<Answered>::empty(),
    {
        let target: usize = if idx == 0 { 0 } else { idx - 1 };
        let ghost answered = Seq::<Answered>::empty();
        Selector { target, last: None, answered: Ghost(answered) }
    }

    /// The frame kept: the last one seen, if any was.
    pub fn finish(self) -> (r: Option<PixelBuffer>)
        ensures
            view_of(r) == last_of(self.log()),
            forall|k: int| 0 <= k < self.log().len() ==>
                ((#[trigger] self.log()[k]).2 == Flow::Stop <==> self.log()[k].1 == self.target()),
    {
        proof { use_type_invariant(&self); }
        self.last
    }
}

impl FrameSink for Selector {
    closed spec fn log(&self) -> Seq<Answered> {
        self.answered@
    }

    closed spec fn setup(&self) -> int {
        self.target as int
    }

    fn accept(&mut self, frame: &PixelBuffer, index: usize) -> (r: Flow) {
        proof { use_type_invariant(&*self); }
        let r = if index == self.target { Flow::Stop } else { Flow::Continue };
        let ghost answered = self.answered@.push((frame@, index, r));
        proof {
            assert forall|k: int| 0 <= k < answered.len() implies
                ((#[trigger] answered[k]).2 == Flow::Stop <==> answered[k].1 == self.target) by {
                if k < answered.len() - 1 {
                    assert(answered[k] == self.answered@[k]);
                }
            }
        }
        *self = Selector { target: self.target, last: Some(frame.duplicate()), answered: Ghost(answered) };
        r
    }
}

/// Keeps every frame it is handed, with its index, and stops the walk once it
/// holds `limit` frames; a limit of 0 never stops it.
pub struct Collector {
    limit: usize,
    kept: Vec<(PixelBuffer, usize)>,
}

/// The answer a collector with `limit` gives to the frame at position `k`.
pub open spec fn answer_at(limit: int, k: int) -> Flow {
    if k + 1 == limit {
        Flow::Stop
    } else {
        Flow::Continue
    }
}

impl Collector {
    pub closed spec fn limit(&self) -> int {
        self.limit as int
    }

    /// A collector that has been handed nothing yet.
    pub fn new(limit: usize) -> (r: Collector)
        ensures
            r.limit() == limit,
            r.log() == Seq::<Answered>::empty(),
    {
        let r = Collector { limit, kept: Vec::new() };
        assert(r.log() =~= Seq::<Answered>::empty());
        r
    }

    /// The kept frames with their indices, in the order they came.
    pub fn kept(&self) -> (r: &Vec<(PixelBuffer, usize)>)
        ensures
            r@.len() == self.log().len(),
            forall|k: int| 0 <= k < r@.len() ==> r@[k].0@ == (#[trigger] self.log()[k]).0
                && r@[k].1 == self.log()[k].1,
    {
        &self.kept
    }
}

impl FrameSink for Collector {
    closed spec fn log(&self) -> Seq<Answered> {
        Seq::new(
            self.kept@.len(),
            |k: int| (self.kept@[k].0@, self.kept@[k].1, answer_at(self.limit as int, k)),
        )
    }

    closed spec fn setup(&self) -> int {
        self.limit as int
    }

    /// Keeps the frame; answers `Stop` when it is the `limit`-th one.
    fn accept(&mut self, frame: &PixelBuffer, index: usize) -> (r: Flow)
        ensures
            final(self).limit() == old(self).limit(),
            r == answer_at(old(self).limit(), old(self).log().len() as int),
    {
        self.kept.push((frame.duplicate(), index));
        let r = if self.kept.len() == self.limit { Flow::Stop } else { Flow::Continue };
        assert(self.log() =~= old(self).log().push((frame@, index, r)));
        r
    }
}

/// A media source: a single still image, a sequence of frames delivered one at
/// a time, or both. `frame` composes the two for every source.
pub trait Driver: Sized {
    type Error;

    /// The image of a source that is a single still image.
    spec fn still(&self) -> Option<(u32, u32, Seq<u8>)>;

    /// The frames that a full walk of the source delivers, in decode order;
    /// empty for a source that does not stream.
    spec fn stream(&self) -> Seq<(u32, u32, Seq<u8>)>;

    /// The source's image if it is a single still image; none for streaming sources.
    fn img(&self) -> (r: Option<PixelBuffer>)
        ensures
            view_of(r) == self.still(),
    ;

    /// Walks the frames in decode order, handing each to `sink` with its
    /// 0-based index. `Ok(true)` when the walk ran to the end, `Ok(false)` when
    /// the sink stopped it or the source streams nothing.
    fn frames<S: FrameSink>(&mut self, sink: &mut S) -> (r: Result<bool, Self::Error>)
        ensures
            final(sink).setup() == old(sink).setup(),
            r matches Ok(completed) ==> walked(old(self).stream(), old(sink).log(), final(sink).log(), completed),
    ;

    /// Frame number `idx`, counted from 1 (0 also means the first frame): the
    /// still image whatever the number, or else the frame at that stream
    /// position, or the last frame when the stream is shorter. None when
    /// nothing was produced or the walk failed.
    fn frame(&mut self, idx: usize) -> (r: Option<PixelBuffer>)
        ensures
            old(self).still() is Some ==> view_of(r) == old(self).still() && *final(self) == *old(self),
            old(self).still() is None ==> r is None || view_of(r) == frame_at_seq(old(self).stream(), idx as int),
    {
        match self.img() {
            Some(img) => Some(img),
            None => {
                let ghost stream = self.stream();
                let mut selector = Selector::new(idx);
                match self.frames(&mut selector) {
                    Ok(completed) => {
                        let ghost log = selector.log();
                        let ghost t = selector.target();
                        let r = selector.finish();
                        proof { lemma_selected(stream, log, completed, t, idx as int); }
                        r
                    },
                    Err(_) => None,
                }
            },
        }
    }
}

/// A walk that a selector for `idx` took part in keeps the frame that
/// `frame_at_seq` picks, or none.
proof fn lemma_selected(
    stream: Seq<(u32, u32, Seq<u8>)>,
    log: Seq<Answered>,
    completed: bool,
    t: int,
    idx: int,
)
    requires
        walked(stream, Seq::empty(), log, completed),
        t == stream_position(idx),
        forall|k: int| 0 <= k < log.len() ==> ((#[trigger] log[k]).2 == Flow::Stop <==> log[k].1 == t),
    ensures
        last_of(log) is None || last_of(log) == frame_at_seq(stream, idx),
        completed && stream.len() > 0 ==> last_of(log) == frame_at_seq(stream, idx),
        !completed && log.len() > 0 ==> last_of(log) == frame_at_seq(stream, idx),
{
    let out = handed(Seq::empty(), log);
    assert(out =~= log);
    if log.len() > 0 {
        let n = log.len() - 1;
        assert(out[n].0 == stream[n] && out[n].1 == n);
        assert(log[n] == out[n]);
        if log[n].2 == Flow::Stop {
            assert(log[n].1 == t);
            assert(frame_at_seq(stream, idx) == Some(stream[n]));
        } else {
            assert forall|k: int| 0 <= k < log.len() implies (#[trigger] log[k]).1 != t by {
                if k < n {
                    assert(log[k].2 == Flow::Continue);
                }
            }
            if completed {
                assert(log.len() == stream.len());
                if t < stream.len() {
                    assert(log[t].1 == t);
                }
            }
        }
    }
}

/// One more frame handed out: a `Continue` keeps the walk going, a `Stop`
/// ends it.
proof fn lemma_walk_step(
    stream: Seq<(u32, u32, Seq<u8>)>,
    before: Seq<Answered>,
    mid: Seq<Answered>,
    after: Seq<Answered>,
    i: int,
    flow: Flow,
)
    requires
        0 <= i < stream.len(),
        i <= usize::MAX,
        walked(stream.subrange(0, i), before, mid, true),
        handed(before, mid).len() == i,
        after == mid.push((stream[i], i as usize, flow)),
    ensures
        handed(before, after).len() == i + 1,
        handed(before, after).last().2 == flow,
        flow == Flow::Continue ==> walked(stream.subrange(0, i + 1), before, after, true),
        flow == Flow::Stop ==> walked(stream, before, after, false),
{
    let out0 = handed(before, mid);
    let out = handed(before, after);
    assert(out =~= out0.push((stream[i], i as usize, flow)));
    assert(after.subrange(0, before.len() as int) =~= mid.subrange(0, before.len() as int));
    assert forall|k: int| 0 <= k < out.len() implies out[k].0 == stream[k] && out[k].1 == k by {
        if k < i {
            assert(out[k] == out0[k]);
            assert(stream.subrange(0, i)[k] == stream[k]);
        }
    }
    assert forall|k: int| 0 <= k < out.len() - 1 implies out[k].2 == Flow::Continue by {
        assert(out[k] == out0[k]);
        if k < out0.len() - 1 {
        } else {
            assert(k == i - 1);
        }
    }
    if flow == Flow::Continue {
        let s1 = stream.subrange(0, i + 1);
        assert forall|k: int| 0 <= k < out.len() implies out[k].0 == s1[k] && out[k].1 == k by {
            if k < i {
                assert(out[k] == out0[k]);
                assert(stream.subrange(0, i)[k] == stream[k]);
            }
        }
    }
}

/// A source that is one still image: it has exactly one frame.
pub struct Still {
    image: PixelBuffer,
}

impl Still {
    pub closed spec fn image(&self) -> (u32, u32, Seq<u8>) {
        self.image@
    }

    pub fn new(image: PixelBuffer) -> (r: Still)
        ensures
            r.image() == image@,
    {
        Still { image }
    }
}

impl Driver for Still {
    type Error = ();

    open spec fn still(&self) -> Option<(u32, u32, Seq<u8>)> {
        Some(self.image())
    }

    open spec fn stream(&self) -> Seq<(u32, u32, Seq<u8>)> {
        Seq::empty()
    }

    fn img(&self) -> (r: Option<PixelBuffer>) {
        Some(self.image.duplicate())
    }

    /// A still image streams nothing: the sink is left alone.
    fn frames<S: FrameSink>(&mut self, sink: &mut S) -> (r: Result<bool, ()>)
        ensures
            r == Ok::<bool, ()>(false),
            *final(sink) == *old(sink),
    {
        proof {
            assert(handed(sink.log(), sink.log()) =~= Seq::<Answered>::empty());
            assert(sink.log().subrange(0, sink.log().len() as int) =~= sink.log());
        }
        Ok(false)
    }

    fn frame(&mut self, idx: usize) -> (r: Option<PixelBuffer>)
        ensures
            view_of(r) == Some(old(self).image()),
    {
        Some(self.image.duplicate())
    }
}

/// A source whose frames are already decoded and held in memory, in order.
pub struct Clip {
    frames: Vec<PixelBuffer>,
}

pub open spec fn views_of(frames: Seq<PixelBuffer>) -> Seq<(u32, u32, Seq<u8>)> {
    frames.map_values(|b: PixelBuffer| b@)
}

impl Clip {
    pub closed spec fn contents(&self) -> Seq<(u32, u32, Seq<u8>)> {
        views_of(self.frames@)
    }

    pub fn new(frames: Vec<PixelBuffer>) -> (r: Clip)
        ensures
            r.contents() == views_of(frames@),
    {
        Clip { frames }
    }

    pub fn len(&self) -> (r: usize)
        ensures
            r == self.contents().len(),
    {
        self.frames.len()
    }
}

impl Driver for Clip {
    type Error = ();

    open spec fn still(&self) -> Option<(u32, u32, Seq<u8>)> {
        None
    }

    open spec fn stream(&self) -> Seq<(u32, u32, Seq<u8>)> {
        self.contents()
    }

    fn img(&self) -> (r: Option<PixelBuffer>) {
        None
    }

    /// Hands every frame to `sink` until it answers `Stop`; the walk is
    /// complete exactly when no answer was `Stop`.
    fn frames<S: FrameSink>(&mut self, sink: &mut S) -> (r: Result<bool, ()>)
        ensures
            r is Ok,
            final(self).contents() == old(self).contents(),
            old(self).contents().len() == 0 ==> r == Ok::<bool, ()>(true),
            r == Ok::<bool, ()>(false) <==> handed(old(sink).log(), final(sink).log()).len() > 0
                && handed(old(sink).log(), final(sink).log()).last().2 == Flow::Stop,
    {
        let ghost before = old(sink).log();
        let ghost fs = self.contents();
        proof {
            assert(handed(before, before) =~= Seq::<Answered>::empty());
            assert(before.subrange(0, before.len() as int) =~= before);
        }
        let mut i: usize = 0;
        while i < self.frames.len()
            invariant
                i <= self.frames@.len(),
                fs == self.contents(),
                fs == views_of(self.frames@),
                self.frames@ == old(self).frames@,
                handed(before, sink.log()).len() == i,
                sink.setup() == old(sink).setup(),
                before == old(sink).log(),
                walked(fs.subrange(0, i as int), before, sink.log(), true),
            decreases self.frames@.len() - i,
        {
            let ghost mid = sink.log();
            let flow = sink.accept(&self.frames[i], i);
            proof { lemma_walk_step(fs, before, mid, sink.log(), i as int, flow); }
            if flow == Flow::Stop {
                return Ok(false);
            }
            i += 1;
        }
        proof { assert(fs.subrange(0, i as int) =~= fs); }
        Ok(true)
    }

    fn frame(&mut self, idx: usize) -> (r: Option<PixelBuffer>)
        ensures
            view_of(r) == frame_at_seq(old(self).contents(), idx as int),
            final(self).contents() == old(self).contents(),
    {
        let ghost stream = self.contents();
        let mut selector = Selector::new(idx);
        let walk = self.frames(&mut selector);
        let ghost log = selector.log();
        let ghost t = selector.target();
        let r = selector.finish();
        proof {
            assert(handed(Seq::empty(), log) =~= log);
            lemma_selected(stream, log, walk->Ok_0, t, idx as int);
        }
        r
    }
}

/// The frames of a walk carry the indices 0, 1, 2, ... in order, each one more
/// than the one before.
pub proof fn lemma_indices_from_zero(
    stream: Seq<(u32, u32, Seq<u8>)>,
    before: Seq<Answered>,
    after: Seq<Answered>,
    completed: bool,
)
    requires
        walked(stream, before, after, completed),
    ensures
        forall|k: int| 0 <= k < handed(before, after).len() ==> (#[trigger] handed(before, after)[k]).1 == k,
        forall|k: int| 0 < k < handed(before, after).len() ==>
            (#[trigger] handed(before, after)[k]).1 == handed(before, after)[k - 1].1 + 1,
{
    let out = handed(before, after);
    assert forall|k: int| 0 < k < out.len() implies (#[trigger] out[k]).1 == out[k - 1].1 + 1 by {
        assert(out[k].1 == k);
        assert(out[k - 1].1 == k - 1);
    }
}

/// Early stop: the frame that the consumer answers `Stop` to is the last one it
/// is handed, and the walk reports that it did not complete.
pub proof fn lemma_stop_is_last(
    stream: Seq<(u32, u32, Seq<u8>)>,
    before: Seq<Answered>,
    after: Seq<Answered>,
    completed: bool,
    k: int,
)
    requires
        walked(stream, before, after, completed),
        0 <= k < handed(before, after).len(),
        handed(before, after)[k].2 == Flow::Stop,
    ensures
        handed(before, after).len() == k + 1,
        !completed,
{
}

/// A walk whose consumer never answers `Stop` hands out every frame of the
/// stream, in order with indices 0, 1, 2, ..., and reports that it completed,
/// unless there was nothing to stream.
pub proof fn lemma_unstopped_walk_is_complete(
    stream: Seq<(u32, u32, Seq<u8>)>,
    before: Seq<Answered>,
    after: Seq<Answered>,
    completed: bool,
)
    requires
        walked(stream, before, after, completed),
        forall|k: int| 0 <= k < handed(before, after).len() ==> (#[trigger] handed(before, after)[k]).2 == Flow::Continue,
    ensures
        handed(before, after).len() == stream.len(),
        forall|k: int| 0 <= k < stream.len() ==> (#[trigger] handed(before, after)[k]).0 == stream[k]
            && handed(before, after)[k].1 == k,
        stream.len() > 0 ==> completed,
{
    let out = handed(before, after);
    if !completed && stream.len() > 0 {
        assert(out[out.len() - 1].2 == Flow::Continue);
    }
}

/// Asking for frame 0 is asking for frame 1, and both give the first frame.
pub proof fn lemma_first_frame<V>(frames: Seq<V>)
    ensures
        frame_at_seq(frames, 0) == frame_at_seq(frames, 1),
        frames.len() > 0 ==> frame_at_seq(frames, 1) == Some(frames[0]),
{
}

/// A frame number past the end of the stream gives the last frame, never none,
/// as long as the stream produced a frame.
pub proof fn lemma_clamp_to_last<V>(frames: Seq<V>, idx: int)
    requires
        frames.len() > 0,
        idx > frames.len(),
    ensures
        frame_at_seq(frames, idx) == Some(frames.last()),
{
}

/// A still image is returned for every frame number.
pub proof fn lemma_still_every_frame(image: (u32, u32, Seq<u8>), i: int, j: int)
    ensures
        frame_at_seq(seq![image], i) == Some(image),
        frame_at_seq(seq![image], i) == frame_at_seq(seq![image], j),
{
}

} // verus!
