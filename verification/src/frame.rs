use vstd::prelude::*;

verus! {

/// What the CPU knows of one frame slot's fence.
#[derive(Debug, Copy, Clone, Eq, PartialEq, Structural)]
pub enum FenceState {
    /// The fence is signaled, or was created signaled: a wait on it returns.
    Signaled,
    /// The fence was reset and nothing was submitted with it yet: a wait on
    /// it would never return.
    Reset,
    /// Work was submitted with the fence: the device signals it when that
    /// work completes, so a wait on it returns.
    Pending,
}

/// Where the frame protocol stands between two steps.
#[derive(Debug, Copy, Clone, Eq, PartialEq, Structural)]
pub enum RenderPhase {
    /// No frame is being produced.
    Idle,
    /// A frame slot was taken and its fence awaited; an image is being
    /// acquired from the presentation engine.
    Acquiring,
    /// An image is held; the frame's commands are being recorded.
    Recording { image: usize },
    /// The slot's fence was reset, immediately before submission.
    FenceReset { image: usize },
    /// The frame was submitted, fenced by the slot's fence; presentation
    /// follows.
    Presenting { image: usize },
}

/// The fixed ring of frame-in-flight slots, together with the per-image
/// record of which slot's fence last used each presentable image.
///
/// The ring is the model of the synchronization objects: the caller performs
/// the actual fence waits, submissions and presentations, and drives the
/// ring through one method per protocol step. The contracts guarantee that
/// every wait the protocol asks for is on a fence that is signaled or
/// pending — never on one that was reset and never submitted — whichever
/// way a frame ends.
pub struct SyncRing {
    /// One fence state per frame slot.
    pub fences: Vec<FenceState>,
    /// For each presentable image, the frame slot whose fence last used it.
    pub image_slot: Vec<Option<usize>>,
    /// The slot of the frame being produced.
    pub current: usize,
    /// The protocol phase.
    pub phase: RenderPhase,
}

impl SyncRing {
    /// Shape and safety invariant: indices in range, and a reset fence can
    /// exist only in the instant between the reset and the submission of
    /// the current frame.
    pub open spec fn wf(&self) -> bool {
        &&& 1 <= self.fences@.len()
        &&& self.current < self.fences@.len()
        &&& forall|i: int|
            0 <= i < self.image_slot@.len() ==> ((#[trigger] self.image_slot@[i]) is Some
                ==> self.image_slot@[i].unwrap() < self.fences@.len())
        &&& match self.phase {
            RenderPhase::Idle => true,
            RenderPhase::Acquiring => true,
            RenderPhase::Recording { image } => image < self.image_slot@.len(),
            RenderPhase::FenceReset { image } => image < self.image_slot@.len(),
            RenderPhase::Presenting { image } => image < self.image_slot@.len(),
        }
        &&& forall|s: int|
            0 <= s < self.fences@.len() ==> ((#[trigger] self.fences@[s]) is Reset ==> self.phase
                is FenceReset && s == self.current)
    }

    /// A fresh ring: every fence signaled, no image used yet, idle.
    pub fn new(slots: usize, images: usize) -> (r: SyncRing)
        requires
            1 <= slots,
        ensures
            r.wf(),
            r.fences@.len() == slots,
            forall|s: int| 0 <= s < slots ==> r.fences@[s] == FenceState::Signaled,
            r.image_slot@.len() == images,
            forall|i: int| 0 <= i < images ==> r.image_slot@[i] is None,
            r.current == 0,
            r.phase == RenderPhase::Idle,
    {
        let mut fences: Vec<FenceState> = Vec::new();
        for _n in iter: 0..slots
            invariant
                fences@.len() == iter.index(),
                forall|s: int| 0 <= s < fences@.len() ==> fences@[s] == FenceState::Signaled,
        {
            fences.push(FenceState::Signaled);
        }
        let mut image_slot: Vec<Option<usize>> = Vec::new();
        for _n in iter: 0..images
            invariant
                image_slot@.len() == iter.index(),
                forall|i: int| 0 <= i < image_slot@.len() ==> image_slot@[i] is None,
        {
            image_slot.push(None);
        }
        SyncRing { fences, image_slot, current: 0, phase: RenderPhase::Idle }
    }

    /// Start a frame: advance to the next slot, round-robin, and name the
    /// fence the caller must wait on. That fence is signaled or pending, so
    /// the wait terminates; afterwards it reads as signaled, which this
    /// step records.
    pub fn begin_frame(&mut self) -> (slot: usize)
        requires
            old(self).wf(),
            old(self).phase is Idle,
        ensures
            final(self).wf(),
            slot == final(self).current,
            final(self).current == (old(self).current + 1) % (old(self).fences@.len() as int),
            old(self).fences@[slot as int] != FenceState::Reset,
            final(self).fences@ == old(self).fences@.update(slot as int, FenceState::Signaled),
            final(self).image_slot == old(self).image_slot,
            final(self).phase == RenderPhase::Acquiring,
    {
        let n = self.fences.len();
        self.current = (self.current + 1) % n;
        let slot = self.current;
        self.fences[slot] = FenceState::Signaled;
        self.phase = RenderPhase::Acquiring;
        slot
    }

    /// The presentation engine reported the surface suboptimal or out of
    /// date while acquiring: abort the frame without touching any other
    /// state. No fence is left reset.
    pub fn acquire_failed(&mut self)
        requires
            old(self).wf(),
            old(self).phase is Acquiring,
        ensures
            final(self).wf(),
            final(self).phase == RenderPhase::Idle,
            final(self).fences == old(self).fences,
            final(self).image_slot == old(self).image_slot,
            final(self).current == old(self).current,
            forall|s: int|
                0 <= s < final(self).fences@.len() ==> final(self).fences@[s]
                    != FenceState::Reset,
    {
        self.phase = RenderPhase::Idle;
    }

    /// An image was acquired. When a different, still pending frame slot
    /// last used this image, that slot is returned: the caller must wait on
    /// its fence too before writing the image's framebuffer, and the wait
    /// terminates since the fence is pending. The image is then recorded as
    /// used by the current slot.
    pub fn acquired(&mut self, image: usize) -> (wait: Option<usize>)
        requires
            old(self).wf(),
            old(self).phase is Acquiring,
            image < old(self).image_slot@.len(),
        ensures
            final(self).wf(),
            final(self).phase == (RenderPhase::Recording { image }),
            final(self).current == old(self).current,
            (wait is Some <==> (old(self).image_slot@[image as int] is Some && old(
                self,
            ).image_slot@[image as int].unwrap() != old(self).current && old(self).fences@[old(
                self,
            ).image_slot@[image as int].unwrap() as int] == FenceState::Pending)),
            wait matches Some(s) ==> s == old(self).image_slot@[image as int].unwrap()
                && old(self).fences@[s as int] == FenceState::Pending,
            final(self).image_slot@ == old(self).image_slot@.update(
                image as int,
                Some(old(self).current),
            ),
            final(self).fences@ == (match wait {
                Some(s) => old(self).fences@.update(s as int, FenceState::Signaled),
                None => old(self).fences@,
            }),
    {
        let wait: Option<usize> = match self.image_slot[image] {
            Some(s) => {
                if s != self.current {
                    match self.fences[s] {
                        FenceState::Pending => Some(s),
                        _ => None,
                    }
                } else {
                    None
                }
            },
            None => None,
        };
        if let Some(s) = wait {
            self.fences[s] = FenceState::Signaled;
        }
        self.image_slot[image] = Some(self.current);
        self.phase = RenderPhase::Recording { image };
        wait
    }

    /// The frame's commands are recorded; reset the slot's fence, the one
    /// step that may leave a fence unsignaled, taken back immediately by
    /// `submitted`.
    pub fn reset_fence(&mut self)
        requires
            old(self).wf(),
            old(self).phase is Recording,
            old(self).fences@[old(self).current as int] == FenceState::Signaled,
        ensures
            final(self).wf(),
            old(self).phase matches RenderPhase::Recording { image } ==> final(self).phase == (
            RenderPhase::FenceReset { image }),
            final(self).current == old(self).current,
            final(self).image_slot == old(self).image_slot,
            final(self).fences@ == old(self).fences@.update(
                old(self).current as int,
                FenceState::Reset,
            ),
    {
        let image = match self.phase {
            RenderPhase::Recording { image } => image,
            _ => 0,
        };
        self.fences[self.current] = FenceState::Reset;
        self.phase = RenderPhase::FenceReset { image };
    }

    /// The frame was submitted, fenced by the slot's fence: the fence is
    /// pending again and the device will signal it.
    pub fn submitted(&mut self)
        requires
            old(self).wf(),
            old(self).phase is FenceReset,
        ensures
            final(self).wf(),
            old(self).phase matches RenderPhase::FenceReset { image } ==> final(self).phase == (
            RenderPhase::Presenting { image }),
            final(self).current == old(self).current,
            final(self).image_slot == old(self).image_slot,
            final(self).fences@ == old(self).fences@.update(
                old(self).current as int,
                FenceState::Pending,
            ),
            forall|s: int|
                0 <= s < final(self).fences@.len() ==> final(self).fences@[s]
                    != FenceState::Reset,
    {
        let image = match self.phase {
            RenderPhase::FenceReset { image } => image,
            _ => 0,
        };
        self.fences[self.current] = FenceState::Pending;
        self.phase = RenderPhase::Presenting { image };
    }

    /// Presentation was attempted, successfully or with the invalidation
    /// signal: either way the frame is over and no fence is left reset.
    pub fn presented(&mut self)
        requires
            old(self).wf(),
            old(self).phase is Presenting,
        ensures
            final(self).wf(),
            final(self).phase == RenderPhase::Idle,
            final(self).fences == old(self).fences,
            final(self).image_slot == old(self).image_slot,
            final(self).current == old(self).current,
            forall|s: int|
                0 <= s < final(self).fences@.len() ==> final(self).fences@[s]
                    != FenceState::Reset,
    {
        self.phase = RenderPhase::Idle;
    }
}

/// Whenever the ring is idle — after a presented frame as much as after one
/// aborted by the invalidation signal — every fence is signaled or pending,
/// never reset-without-submission. The fence waits of any following frame,
/// with or without a rebuild in between, therefore terminate: the protocol
/// cannot deadlock on its own fences.
pub proof fn lemma_idle_ring_never_deadlocks(ring: SyncRing)
    requires
        ring.wf(),
        ring.phase is Idle,
    ensures
        forall|s: int| 0 <= s < ring.fences@.len() ==> ring.fences@[s] != FenceState::Reset,
{
}

} // verus!
