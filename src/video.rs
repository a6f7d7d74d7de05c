use vstd::prelude::*;
use crate::pixel::PixelBuffer;
use crate::frame::{RawFrame, convertible, packed, image};
use crate::driver::Flow;

verus! {

/// The medium of a track in a container.
#[derive(PartialEq, Eq, Structural, Clone, Copy, Debug)]
pub enum MediaKind {
    Unknown,
    Video,
    Audio,
    Data,
    Subtitle,
    Attachment,
}

/// Failures of a video source.
#[derive(PartialEq, Eq, Structural, Clone, Copy, Debug)]
pub enum MediaError {
    /// The source could not be read or is not a recognised container.
    OpenError,
    /// No track of the requested medium, or no track selected yet.
    TrackNotFound,
    /// The decode engine failed while decoding or rescaling.
    DecodeError,
}

/// The kind asked for, Video when none is given.
pub open spec fn requested(kind: Option<MediaKind>) -> MediaKind {
    match kind {
        Some(k) => k,
        None => MediaKind::Video,
    }
}

/// `i` is the first track, in container order, of the given kind.
pub open spec fn first_of_kind(kinds: Seq<MediaKind>, kind: MediaKind, i: int) -> bool {
    &&& 0 <= i < kinds.len()
    &&& kinds[i] == kind
    &&& forall|j: int| 0 <= j < i ==> kinds[j] != kind
}

pub open spec fn has_kind(kinds: Seq<MediaKind>, kind: MediaKind) -> bool {
    exists|j: int| 0 <= j < kinds.len() && kinds[j] == kind
}

/// The tracks of an opened container and the track chosen for decoding.
pub struct Video {
    kinds: Vec<MediaKind>,
    index: Option<usize>,
}

impl Video {
    #[verifier::type_invariant]
    spec fn inv(&self) -> bool {
        self.index matches Some(i) ==> i < self.kinds@.len()
    }

    /// The medium of each track, in container order.
    pub closed spec fn kinds(&self) -> Seq<MediaKind> {
        self.kinds@
    }

    /// The selected track, if one was selected.
    pub closed spec fn selected(&self) -> Option<usize> {
        self.index
    }

    /// A source over a container whose tracks have the given media, in order.
    /// No track is selected yet.
    pub fn new(kinds: Vec<MediaKind>) -> (r: Video)
        ensures
            r.kinds() == kinds@,
            r.selected() is None,
    {
        Video { kinds, index: None }
    }

    /// Selects the first track of `kind` (Video when none is given). Fails with
    /// `TrackNotFound`, leaving the selection as it was, when no track has that
    /// medium.
    pub fn setup_stream(&mut self, kind: Option<MediaKind>) -> (r: Result<(), MediaError>)
        ensures
            final(self).kinds() == old(self).kinds(),
            r is Ok <==> has_kind(old(self).kinds(), requested(kind)),
            r is Ok ==> (final(self).selected() matches Some(i)
                && first_of_kind(old(self).kinds(), requested(kind), i as int)),
            r is Err ==> r == Err::<(), MediaError>(MediaError::TrackNotFound)
                && final(self).selected() == old(self).selected(),
    {
        let want = match kind {
            Some(k) => k,
            None => MediaKind::Video,
        };
        let mut i: usize = 0;
        while i < self.kinds.len()
            invariant
                i <= self.kinds@.len(),
                want == requested(kind),
                self.kinds@ == old(self).kinds@,
                self.index == old(self).index,
                forall|j: int| 0 <= j < i ==> self.kinds@[j] != want,
            decreases self.kinds@.len() - i,
        {
            if self.kinds[i] == want {
                assert(self.kinds@[i as int] == want);
                self.index = Some(i);
                return Ok(());
            }
            i += 1;
        }
        Err(MediaError::TrackNotFound)
    }

    /// The selected track; `TrackNotFound` before a selection.
    pub fn index(&self) -> (r: Result<usize, MediaError>)
        ensures
            match self.selected() {
                Some(i) => r == Ok::<usize, MediaError>(i) && i < self.kinds().len(),
                None => r == Err::<usize, MediaError>(MediaError::TrackNotFound),
            },
    {
        proof { use_type_invariant(self); }
        match self.index {
            Some(i) => Ok(i),
            None => Err(MediaError::TrackNotFound),
        }
    }

    /// Starts a decoding walk over the selected track; `TrackNotFound` before a
    /// selection.
    pub fn video(&self) -> (r: Result<Pipeline, MediaError>)
        ensures
            match self.selected() {
                Some(i) => (r matches Ok(p) && p.track() == i && i < self.kinds().len() && p.next_index() == 0
                    && p.phase() == Phase::Feeding),
                None => (r matches Err(e) && e == MediaError::TrackNotFound),
            },
    {
        proof { use_type_invariant(self); }
        match self.index {
            Some(i) => Ok(Pipeline::new(i)),
            None => Err(MediaError::TrackNotFound),
        }
    }
}

/// Where a decoding walk stands.
#[derive(PartialEq, Eq, Structural, Clone, Copy, Debug)]
pub enum Phase {
    /// Waiting for the next packet of the container.
    Feeding,
    /// A packet was submitted; frames are received until none is left.
    Draining,
    /// End of input was signalled; the decoder's last frames are received.
    Flushing,
    /// A frame is with the consumer; `flushing` tells where the walk resumes.
    Delivering { flushing: bool },
    /// The walk is over: `completed` is false when the consumer stopped it.
    Finished { completed: bool },
}

/// What the driver of the decode engine does next.
pub enum Action {
    /// Read the next packet of the container.
    ReadPacket,
    /// Submit the packet just read to the decoder, then receive a frame.
    SendPacket,
    /// Ask the decoder for a frame.
    ReceiveFrame,
    /// Signal end of input to the decoder, then receive a frame.
    SendEof,
    /// Hand this frame with its index to the consumer, then report its answer.
    Deliver(PixelBuffer, usize),
    /// The walk is over; true when every frame was delivered.
    Done(bool),
}

/// The decisions of one decoding walk over a track: which packets to decode,
/// when to drain and flush the decoder, which index each frame gets, and when
/// to stop.
pub struct Pipeline {
    track: usize,
    next_index: usize,
    phase: Phase,
}

impl Pipeline {
    pub closed spec fn track(&self) -> usize {
        self.track
    }

    /// The index the next delivered frame gets: the number delivered so far.
    pub closed spec fn next_index(&self) -> usize {
        self.next_index
    }

    pub closed spec fn phase(&self) -> Phase {
        self.phase
    }

    pub open spec fn receiving(&self) -> bool {
        self.phase() == Phase::Draining || self.phase() == Phase::Flushing
    }

    /// A walk over `track` that has delivered nothing; its first action is
    /// `ReadPacket`.
    pub fn new(track: usize) -> (r: Pipeline)
        ensures
            r.track() == track,
            r.next_index() == 0,
            r.phase() == Phase::Feeding,
    {
        Pipeline { track, next_index: 0, phase: Phase::Feeding }
    }

    pub fn current_phase(&self) -> (r: Phase)
        ensures
            r == self.phase(),
    {
        self.phase
    }

    pub fn next_index_now(&self) -> (r: usize)
        ensures
            r == self.next_index(),
    {
        self.next_index
    }

    /// A packet of track `track` was read. Packets of the selected track are
    /// decoded; others are passed over.
    pub fn on_packet(&mut self, track: usize) -> (r: Action)
        requires
            old(self).phase() == Phase::Feeding,
        ensures
            final(self).track() == old(self).track(),
            final(self).next_index() == old(self).next_index(),
            track == old(self).track() ==> r is SendPacket && final(self).phase() == Phase::Draining,
            track != old(self).track() ==> r is ReadPacket && final(self).phase() == Phase::Feeding,
    {
        if track == self.track {
            self.phase = Phase::Draining;
            Action::SendPacket
        } else {
            Action::ReadPacket
        }
    }

    /// The container has no packet left: the decoder is told so, and its
    /// buffered frames are drained.
    pub fn on_packets_end(&mut self) -> (r: Action)
        requires
            old(self).phase() == Phase::Feeding,
        ensures
            final(self).track() == old(self).track(),
            final(self).next_index() == old(self).next_index(),
            r is SendEof,
            final(self).phase() == Phase::Flushing,
    {
        self.phase = Phase::Flushing;
        Action::SendEof
    }

    /// The decoder produced a frame, rescaled to packed RGB as `raw`. It is
    /// delivered with the next index; a frame whose rows cannot be copied is
    /// skipped and the next one is asked for.
    pub fn on_frame(&mut self, raw: &RawFrame) -> (r: Action)
        requires
            old(self).receiving(),
            old(self).next_index() < usize::MAX,
        ensures
            final(self).track() == old(self).track(),
            convertible(*raw) ==> {
                &&& (r matches Action::Deliver(b, i) && i == old(self).next_index() && b.wf()
                    && b@ == (raw.width, raw.height,
                        packed(raw.data@, raw.stride as int, raw.width * 3, raw.height as int)))
                &&& final(self).next_index() == old(self).next_index() + 1
                &&& final(self).phase() == (Phase::Delivering {
                    flushing: old(self).phase() == Phase::Flushing,
                })
            },
            !convertible(*raw) ==> {
                &&& r is ReceiveFrame
                &&& final(self).next_index() == old(self).next_index()
                &&& final(self).phase() == old(self).phase()
            },
    {
        match image(raw) {
            Some(b) => {
                let i = self.next_index;
                self.next_index = i + 1;
                self.phase = Phase::Delivering { flushing: self.phase == Phase::Flushing };
                Action::Deliver(b, i)
            },
            None => Action::ReceiveFrame,
        }
    }

    /// The decoder has no frame at the moment. After a packet, the next packet
    /// is read; after end of input, the walk is complete.
    pub fn on_no_frame(&mut self) -> (r: Action)
        requires
            old(self).receiving(),
        ensures
            final(self).track() == old(self).track(),
            final(self).next_index() == old(self).next_index(),
            old(self).phase() == Phase::Draining ==> r is ReadPacket
                && final(self).phase() == Phase::Feeding,
            old(self).phase() == Phase::Flushing ==> r == Action::Done(true)
                && final(self).phase() == (Phase::Finished { completed: true }),
    {
        if self.phase == Phase::Draining {
            self.phase = Phase::Feeding;
            Action::ReadPacket
        } else {
            self.phase = Phase::Finished { completed: true };
            Action::Done(true)
        }
    }

    /// The consumer answered for the frame just delivered. `Stop` ends the walk
    /// at once: no further packet is read or decoded.
    pub fn on_flow(&mut self, flow: Flow) -> (r: Action)
        requires
            old(self).phase() is Delivering,
        ensures
            final(self).track() == old(self).track(),
            final(self).next_index() == old(self).next_index(),
            flow == Flow::Stop ==> r == Action::Done(false)
                && final(self).phase() == (Phase::Finished { completed: false }),
            flow == Flow::Continue ==> r is ReceiveFrame && final(self).phase() == if old(
                self,
            ).phase() == (Phase::Delivering { flushing: true }) {
                Phase::Flushing
            } else {
                Phase::Draining
            },
    {
        match flow {
            Flow::Stop => {
                self.phase = Phase::Finished { completed: false };
                Action::Done(false)
            },
            Flow::Continue => {
                self.phase = if self.phase == (Phase::Delivering { flushing: true }) {
                    Phase::Flushing
                } else {
                    Phase::Draining
                };
                Action::ReceiveFrame
            },
        }
    }
}

} // verus!
