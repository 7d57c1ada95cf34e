use voxel_render::frame::{FenceState, RenderPhase, SyncRing};
use voxel_render::surface::{SurfaceCaps, SurfaceFormat, Swapchain};

fn caps() -> SurfaceCaps {
    SurfaceCaps {
        min_image_count: 2,
        max_image_count: 8,
        min_width: 1,
        max_width: 4096,
        min_height: 1,
        max_height: 4096,
    }
}

#[test]
fn fresh_ring_is_idle_and_signaled() {
    let ring = SyncRing::new(2, 3);
    assert_eq!(ring.phase, RenderPhase::Idle);
    assert_eq!(ring.current, 0);
    assert_eq!(ring.fences, vec![FenceState::Signaled, FenceState::Signaled]);
    assert_eq!(ring.image_slot, vec![None, None, None]);
}

#[test]
fn frame_slots_rotate_round_robin() {
    let mut ring = SyncRing::new(2, 3);
    let slot = ring.begin_frame();
    assert_eq!(slot, 1);
    ring.acquire_failed();
    let slot = ring.begin_frame();
    assert_eq!(slot, 0);
    ring.acquire_failed();
    let slot = ring.begin_frame();
    assert_eq!(slot, 1);
}

#[test]
fn completed_frame_walks_all_phases() {
    let mut ring = SyncRing::new(2, 3);
    let slot = ring.begin_frame();
    assert_eq!(ring.phase, RenderPhase::Acquiring);
    let wait = ring.acquired(2);
    assert!(wait.is_none());
    assert_eq!(ring.phase, RenderPhase::Recording { image: 2 });
    assert_eq!(ring.image_slot[2], Some(slot));
    ring.reset_fence();
    assert_eq!(ring.fences[slot], FenceState::Reset);
    ring.submitted();
    assert_eq!(ring.fences[slot], FenceState::Pending);
    ring.presented();
    assert_eq!(ring.phase, RenderPhase::Idle);
    // No fence is ever left reset once the frame is over.
    assert!(ring.fences.iter().all(|f| *f != FenceState::Reset));
}

#[test]
fn acquire_failure_leaves_ring_consistent() {
    // The frame aborted by the invalidation signal touches nothing, so a
    // rebuild followed by a new frame cannot wait on a dead fence.
    let mut ring = SyncRing::new(2, 3);
    ring.begin_frame();
    let fences_before = ring.fences.clone();
    let images_before = ring.image_slot.clone();
    ring.acquire_failed();
    assert_eq!(ring.phase, RenderPhase::Idle);
    assert_eq!(ring.fences, fences_before);
    assert_eq!(ring.image_slot, images_before);
    assert!(ring.fences.iter().all(|f| *f != FenceState::Reset));
    // The next frame proceeds normally.
    ring.begin_frame();
    let wait = ring.acquired(0);
    assert!(wait.is_none());
}

#[test]
fn image_reuse_by_other_pending_slot_requires_extra_wait() {
    let mut ring = SyncRing::new(2, 2);
    // Frame A in slot 1 uses image 0 and stays pending.
    let a = ring.begin_frame();
    ring.acquired(0);
    ring.reset_fence();
    ring.submitted();
    ring.presented();
    assert_eq!(ring.fences[a], FenceState::Pending);
    // Frame B in slot 0 acquires the same image: it must wait on slot 1's
    // fence, which is pending, not reset — the wait terminates.
    let b = ring.begin_frame();
    assert_ne!(a, b);
    let wait = ring.acquired(0);
    assert_eq!(wait, Some(a));
    assert_eq!(ring.fences[a], FenceState::Signaled);
    assert_eq!(ring.image_slot[0], Some(b));
}

#[test]
fn rebuild_after_invalidation_gives_fresh_ring() {
    let formats = vec![SurfaceFormat { format: 50, color_space: 0 }];
    let modes = vec![2];
    let mut sc = Swapchain::new(&formats, &modes, &caps(), 800, 600, 3, 2);
    // A frame ends with the invalidation signal at presentation.
    sc.ring.begin_frame();
    sc.ring.acquired(1);
    sc.ring.reset_fence();
    sc.ring.submitted();
    sc.ring.presented();
    // Rebuild: full teardown and reconstruction; the ring starts over.
    sc.rebuild(&formats, &modes, &caps(), 1024, 768, 3, 2);
    assert_eq!(sc.extent, (1024, 768));
    assert_eq!(sc.ring.phase, RenderPhase::Idle);
    assert_eq!(sc.ring.current, 0);
    assert!(sc.ring.fences.iter().all(|f| *f == FenceState::Signaled));
    assert!(sc.ring.image_slot.iter().all(|s| s.is_none()));
    // And rendering proceeds: the first wait is on a signaled fence.
    let slot = sc.ring.begin_frame();
    assert_eq!(slot, 1);
    assert!(sc.ring.acquired(0).is_none());
}

#[test]
fn single_slot_ring_reuses_its_own_image_without_extra_wait() {
    let mut ring = SyncRing::new(1, 1);
    let a = ring.begin_frame();
    assert_eq!(a, 0);
    assert!(ring.acquired(0).is_none());
    ring.reset_fence();
    ring.submitted();
    ring.presented();
    // The only image was last used by the only slot; its fence is the one
    // begin_frame already waits on, so no second wait is asked for.
    let b = ring.begin_frame();
    assert_eq!(b, 0);
    assert!(ring.acquired(0).is_none());
}
