//! Per-frame scheduling decisions: which expensive cloth and binding passes
//! run on a frame, and how their bookkeeping moves between frames.
use vstd::prelude::*;

verus! {

/// Frames between full cloth-dimension audits of an unchanged target.
pub const CLOTH_LOCAL_SCALE_AUDIT_INTERVAL_FRAMES: u32 = 600;
/// Frames between full validations of a ready body-scale binding.
pub const BODY_SCALE_BINDING_AUDIT_INTERVAL_FRAMES: u32 = 60;
/// Frames between periodic re-queues of cloth scale transitions.
pub const CLOTH_TRANSITION_QUEUE_AUDIT_INTERVAL_FRAMES: u32 = 60;
/// Bit pattern of the unit scale `1.0f32`.
pub const UNIT_SCALE_BITS: u32 = 0x3F80_0000;

/// The identity of the cloth work a frame asks for: target input, scale bits
/// and topology generation.
pub open spec fn same_identity(a: (usize, u32, u64), b: (usize, u32, u64)) -> bool {
    a.0 == b.0 && a.1 == b.1 && a.2 == b.2
}

/// Local dimensions are refreshed when work is pending, the identity
/// changed, or the audit interval has passed.
pub open spec fn spec_should_refresh_cloth_local_scale(
    previous: (usize, u32, u64),
    frames_since_refresh: u32,
    work_pending: bool,
    current: (usize, u32, u64),
) -> bool {
    work_pending || !same_identity(current, previous) || frames_since_refresh
        >= CLOTH_LOCAL_SCALE_AUDIT_INTERVAL_FRAMES
}

/// A full cloth-dimension refresh runs when work is pending, when the target
/// identity changed, or when the periodic audit interval elapsed.
pub fn should_refresh_cloth_local_scale(
    previous: (usize, u32, u64),
    frames_since_refresh: u32,
    work_pending: bool,
    current: (usize, u32, u64),
) -> (refresh: bool)
    ensures
        refresh == spec_should_refresh_cloth_local_scale(
            previous,
            frames_since_refresh,
            work_pending,
            current,
        ),
{
    let changed = current.0 != previous.0 || current.1 != previous.1 || current.2 != previous.2;
    work_pending || changed || frames_since_refresh >= CLOTH_LOCAL_SCALE_AUDIT_INTERVAL_FRAMES
}

/// Bounds wait for local work and transitions, then refresh like local
/// dimensions.
pub open spec fn spec_should_refresh_cloth_instance_aabbs(
    local_work_pending: bool,
    transition_pending: bool,
    previous: (usize, u32, u64),
    frames_since_refresh: u32,
    work_pending: bool,
    current: (usize, u32, u64),
) -> bool {
    !local_work_pending && !transition_pending && spec_should_refresh_cloth_local_scale(
        previous,
        frames_since_refresh,
        work_pending,
        current,
    )
}

/// Collision AABBs wait until local dimensions and native transitions settle;
/// then they follow the same refresh rule as the local dimensions.
pub fn should_refresh_cloth_instance_aabbs(
    local_work_pending: bool,
    transition_pending: bool,
    previous: (usize, u32, u64),
    frames_since_refresh: u32,
    work_pending: bool,
    current: (usize, u32, u64),
) -> (refresh: bool)
    ensures
        refresh == spec_should_refresh_cloth_instance_aabbs(
            local_work_pending,
            transition_pending,
            previous,
            frames_since_refresh,
            work_pending,
            current,
        ),
{
    !local_work_pending && !transition_pending && should_refresh_cloth_local_scale(
        previous,
        frames_since_refresh,
        work_pending,
        current,
    )
}

/// Transitions are queued for a present target whose identity changed, or
/// on a periodic audit.
pub open spec fn spec_should_queue_cloth_scale_transitions(
    previous: (usize, u32, u64),
    current: (usize, u32, u64),
    periodic_audit: bool,
) -> bool {
    current.0 != 0 && (periodic_audit || !same_identity(previous, current))
}

/// Transitions are queued for a nonzero target on an identity change or on
/// the bounded periodic audit.
pub fn should_queue_cloth_scale_transitions(
    previous: (usize, u32, u64),
    current: (usize, u32, u64),
    periodic_audit: bool,
) -> (queue: bool)
    ensures
        queue == spec_should_queue_cloth_scale_transitions(previous, current, periodic_audit),
{
    let changed = current.0 != previous.0 || current.1 != previous.1 || current.2 != previous.2;
    current.0 != 0 && (periodic_audit || changed)
}

/// A binding is audited until it is ready, then once per interval.
pub open spec fn spec_should_audit_body_scale_binding(
    cached_ready: bool,
    frames_since_audit: u32,
) -> bool {
    !cached_ready || frames_since_audit >= BODY_SCALE_BINDING_AUDIT_INTERVAL_FRAMES
}

/// A binding is fully revalidated unless a ready binding is cached and the
/// audit interval has not elapsed.
pub fn should_audit_body_scale_binding(cached_ready: bool, frames_since_audit: u32) -> (audit:
    bool)
    ensures
        audit == spec_should_audit_body_scale_binding(cached_ready, frames_since_audit),
{
    !cached_ready || frames_since_audit >= BODY_SCALE_BINDING_AUDIT_INTERVAL_FRAMES
}

/// One more, saturating.
pub open spec fn saturating_inc(x: u32) -> u32 {
    if x == u32::MAX {
        u32::MAX
    } else {
        (x + 1) as u32
    }
}

/// One more, saturating.
pub open spec fn saturating_inc64(x: u64) -> u64 {
    if x == u64::MAX {
        u64::MAX
    } else {
        (x + 1) as u64
    }
}

/// Bookkeeping of one budgeted cloth refresh pass across frames: what it
/// last completed against, frames since then, and whether work remains.
pub struct RefreshTrack {
    pub last_target: usize,
    pub last_scale_bits: u32,
    pub last_generation: u64,
    pub frames: u32,
    pub work_pending: bool,
    pub refresh_calls: u64,
    pub skipped_frames: u64,
}

impl RefreshTrack {
    /// The identity last refreshed: target, scale bits and generation.
    pub open spec fn last(&self) -> (usize, u32, u64) {
        (self.last_target, self.last_scale_bits, self.last_generation)
    }

    /// The state after a reset: nothing refreshed, unit scale.
    pub fn new() -> (track: Self)
        ensures
            track.last() == (0usize, UNIT_SCALE_BITS, 0u64),
            track.frames == 0,
            !track.work_pending,
            track.refresh_calls == 0,
            track.skipped_frames == 0,
    {
        RefreshTrack {
            last_target: 0,
            last_scale_bits: UNIT_SCALE_BITS,
            last_generation: 0,
            frames: 0,
            work_pending: false,
            refresh_calls: 0,
            skipped_frames: 0,
        }
    }

    /// Starts a frame of the cloth-dimension pass: counts the frame and says
    /// whether the pass runs for a ready binding with the current identity.
    pub fn begin_local_frame(&mut self, ready: bool, current: (usize, u32, u64)) -> (refresh: bool)
        ensures
            final(self).frames == saturating_inc(old(self).frames),
            final(self).last() == old(self).last(),
            final(self).work_pending == old(self).work_pending,
            final(self).refresh_calls == old(self).refresh_calls,
            final(self).skipped_frames == old(self).skipped_frames,
            refresh == (ready && spec_should_refresh_cloth_local_scale(
                old(self).last(),
                final(self).frames,
                old(self).work_pending,
                current,
            )),
    {
        self.frames = self.frames.saturating_add(1);
        ready && should_refresh_cloth_local_scale(
            (self.last_target, self.last_scale_bits, self.last_generation),
            self.frames,
            self.work_pending,
            current,
        )
    }

    /// Starts a frame of the collision-AABB pass, which additionally waits
    /// for pending local-dimension work and native transitions.
    pub fn begin_aabb_frame(
        &mut self,
        ready: bool,
        local_work_pending: bool,
        transition_pending: bool,
        current: (usize, u32, u64),
    ) -> (refresh: bool)
        ensures
            final(self).frames == saturating_inc(old(self).frames),
            final(self).last() == old(self).last(),
            final(self).work_pending == old(self).work_pending,
            final(self).refresh_calls == old(self).refresh_calls,
            final(self).skipped_frames == old(self).skipped_frames,
            refresh == (ready && spec_should_refresh_cloth_instance_aabbs(
                local_work_pending,
                transition_pending,
                old(self).last(),
                final(self).frames,
                old(self).work_pending,
                current,
            )),
    {
        self.frames = self.frames.saturating_add(1);
        ready && should_refresh_cloth_instance_aabbs(
            local_work_pending,
            transition_pending,
            (self.last_target, self.last_scale_bits, self.last_generation),
            self.frames,
            self.work_pending,
            current,
        )
    }

    /// Records a pass that ran. A readable topology commits the identity and
    /// restarts the audit clock, unless work remains; an unreadable topology
    /// keeps the old identity and forces a retry on the next frame.
    pub fn finish_refresh(
        &mut self,
        current: (usize, u32, u64),
        topology_readable: bool,
        work_pending: bool,
    )
        ensures
            final(self).refresh_calls == saturating_inc64(old(self).refresh_calls),
            final(self).skipped_frames == old(self).skipped_frames,
            topology_readable ==> {
                &&& final(self).last() == current
                &&& final(self).work_pending == work_pending
                &&& final(self).frames == (if work_pending {
                    CLOTH_LOCAL_SCALE_AUDIT_INTERVAL_FRAMES
                } else {
                    0
                })
            },
            !topology_readable ==> {
                &&& final(self).last() == old(self).last()
                &&& final(self).work_pending
                &&& final(self).frames == CLOTH_LOCAL_SCALE_AUDIT_INTERVAL_FRAMES
            },
    {
        self.refresh_calls = self.refresh_calls.saturating_add(1);
        if topology_readable {
            self.last_target = current.0;
            self.last_scale_bits = current.1;
            self.last_generation = current.2;
            self.work_pending = work_pending;
            self.frames = if work_pending {
                CLOTH_LOCAL_SCALE_AUDIT_INTERVAL_FRAMES
            } else {
                0
            };
        } else {
            self.frames = CLOTH_LOCAL_SCALE_AUDIT_INTERVAL_FRAMES;
            self.work_pending = true;
        }
    }

    /// Records a ready frame on which the pass did not run.
    pub fn skip(&mut self)
        ensures
            final(self).skipped_frames == saturating_inc64(old(self).skipped_frames),
            final(self).last() == old(self).last(),
            final(self).frames == old(self).frames,
            final(self).work_pending == old(self).work_pending,
            final(self).refresh_calls == old(self).refresh_calls,
    {
        self.skipped_frames = self.skipped_frames.saturating_add(1);
    }

    /// Records a frame without a ready binding: the pass is restored, so the
    /// next ready frame starts from the unit scale with no work pending.
    pub fn unbind(&mut self, generation: u64)
        ensures
            final(self).last() == (0usize, UNIT_SCALE_BITS, generation),
            final(self).frames == 0,
            !final(self).work_pending,
            final(self).refresh_calls == old(self).refresh_calls,
            final(self).skipped_frames == old(self).skipped_frames,
    {
        self.last_target = 0;
        self.last_scale_bits = UNIT_SCALE_BITS;
        self.last_generation = generation;
        self.frames = 0;
        self.work_pending = false;
    }
}

/// Bookkeeping of the cloth transition queue across frames.
pub struct QueueTrack {
    pub last_target: usize,
    pub last_scale_bits: u32,
    pub last_generation: u64,
    pub audit_frames: u32,
}

impl QueueTrack {
    /// The identity last refreshed: target, scale bits and generation.
    pub open spec fn last(&self) -> (usize, u32, u64) {
        (self.last_target, self.last_scale_bits, self.last_generation)
    }

    /// Nothing queued yet, unit scale.
    pub fn new() -> (track: Self)
        ensures
            track.last() == (0usize, UNIT_SCALE_BITS, 0u64),
            track.audit_frames == 0,
    {
        QueueTrack { last_target: 0, last_scale_bits: UNIT_SCALE_BITS, last_generation: 0, audit_frames: 0 }
    }

    /// Counts a frame and says whether transitions are queued for a ready
    /// binding with the current identity.
    pub fn begin_frame(&mut self, ready: bool, current: (usize, u32, u64)) -> (queue: bool)
        ensures
            final(self).audit_frames == saturating_inc(old(self).audit_frames),
            final(self).last() == old(self).last(),
            queue == (ready && spec_should_queue_cloth_scale_transitions(
                old(self).last(),
                current,
                final(self).audit_frames >= CLOTH_TRANSITION_QUEUE_AUDIT_INTERVAL_FRAMES,
            )),
    {
        self.audit_frames = self.audit_frames.saturating_add(1);
        let audit = self.audit_frames >= CLOTH_TRANSITION_QUEUE_AUDIT_INTERVAL_FRAMES;
        ready && should_queue_cloth_scale_transitions(
            (self.last_target, self.last_scale_bits, self.last_generation),
            current,
            audit,
        )
    }

    /// Records queued transitions for a target at a scale, with the topology
    /// generation observed after queueing.
    pub fn record_queued(&mut self, target: usize, scale_bits: u32, generation: u64)
        ensures
            final(self).last() == (target, scale_bits, generation),
            final(self).audit_frames == 0,
    {
        self.last_target = target;
        self.last_scale_bits = scale_bits;
        self.last_generation = generation;
        self.audit_frames = 0;
    }

    /// Records a frame without a ready binding.
    pub fn unbind(&mut self, generation: u64)
        ensures
            final(self).last() == (0usize, UNIT_SCALE_BITS, generation),
            final(self).audit_frames == old(self).audit_frames,
    {
        self.last_target = 0;
        self.last_scale_bits = UNIT_SCALE_BITS;
        self.last_generation = generation;
    }
}

/// Bookkeeping of the body-scale binding audit across frames.
pub struct BindingAudit {
    pub cached_ready: bool,
    pub frames: u32,
}

impl BindingAudit {
    /// Not yet ready, no frames counted.
    pub fn new() -> (audit: Self)
        ensures
            !audit.cached_ready,
            audit.frames == 0,
    {
        BindingAudit { cached_ready: false, frames: 0 }
    }

    /// Counts a frame and says whether the binding is fully revalidated.
    pub fn begin_frame(&mut self) -> (audit: bool)
        ensures
            final(self).frames == saturating_inc(old(self).frames),
            final(self).cached_ready == old(self).cached_ready,
            audit == spec_should_audit_body_scale_binding(old(self).cached_ready, final(self).frames),
    {
        self.frames = self.frames.saturating_add(1);
        should_audit_body_scale_binding(self.cached_ready, self.frames)
    }

    /// Records a full validation and caches whether it produced a ready binding.
    pub fn record_bind(&mut self, ready: bool)
        ensures
            final(self).cached_ready == ready,
            final(self).frames == 0,
    {
        self.cached_ready = ready;
        self.frames = 0;
    }
}

/// Pending local work forces the next budgeted refresh, whatever else holds.
pub proof fn pending_work_forces_refresh(
    previous: (usize, u32, u64),
    frames_since_refresh: u32,
    current: (usize, u32, u64),
)
    ensures
        spec_should_refresh_cloth_local_scale(previous, frames_since_refresh, true, current),
{
}

/// An unchanged target with no pending work is refreshed exactly when the
/// audit interval has elapsed, not on every frame.
pub proof fn steady_state_refreshes_only_on_audit(
    identity: (usize, u32, u64),
    frames_since_refresh: u32,
)
    ensures
        spec_should_refresh_cloth_local_scale(identity, frames_since_refresh, false, identity)
            <==> frames_since_refresh >= CLOTH_LOCAL_SCALE_AUDIT_INTERVAL_FRAMES,
{
}

/// A completed, readable pass with no work left is not repeated on the
/// following frames for the same identity until the audit interval elapses.
pub proof fn completed_pass_waits_for_audit(
    track: RefreshTrack,
    current: (usize, u32, u64),
    frames: u32,
)
    requires
        track.last() == current,
        !track.work_pending,
    ensures
        spec_should_refresh_cloth_local_scale(track.last(), frames, track.work_pending, current)
            == (frames >= CLOTH_LOCAL_SCALE_AUDIT_INTERVAL_FRAMES),
{
}

/// The collision-AABB pass never runs while local dimensions still have
/// pending work or a native cloth transition is in flight.
pub proof fn aabb_waits_for_local_work_and_transitions(
    local_work_pending: bool,
    transition_pending: bool,
    previous: (usize, u32, u64),
    frames_since_refresh: u32,
    work_pending: bool,
    current: (usize, u32, u64),
)
    requires
        local_work_pending || transition_pending,
    ensures
        !spec_should_refresh_cloth_instance_aabbs(
            local_work_pending,
            transition_pending,
            previous,
            frames_since_refresh,
            work_pending,
            current,
        ),
{
}

/// Transitions are never queued for the null target, even on an audit.
pub proof fn queue_never_targets_null(
    previous: (usize, u32, u64),
    current: (usize, u32, u64),
    periodic_audit: bool,
)
    requires
        current.0 == 0,
    ensures
        !spec_should_queue_cloth_scale_transitions(previous, current, periodic_audit),
{
}

/// A cached ready binding is revalidated exactly on the audit interval; a
/// binding that was not ready is revalidated on every frame.
pub proof fn binding_audit_is_bounded(frames_since_audit: u32)
    ensures
        spec_should_audit_body_scale_binding(false, frames_since_audit),
        spec_should_audit_body_scale_binding(true, frames_since_audit) <==> frames_since_audit
            >= BODY_SCALE_BINDING_AUDIT_INTERVAL_FRAMES,
{
}


/// Any change of the target, its scale or its topology generation (even the
/// target alone) runs the local-dimension refresh at once, whatever the
/// audit counter and pending work say.
pub proof fn any_identity_change_refreshes(
    previous: (usize, u32, u64),
    current: (usize, u32, u64),
    frames_since_refresh: u32,
    work_pending: bool,
)
    requires
        current != previous,
    ensures
        spec_should_refresh_cloth_local_scale(previous, frames_since_refresh, work_pending, current),
{
    if current.0 == previous.0 && current.1 == previous.1 && current.2 == previous.2 {
        assert(current == previous);
    }
}

/// Once local work and native transitions have settled, any identity change
/// runs the collision-box refresh too.
pub proof fn settled_identity_change_refreshes_boxes(
    previous: (usize, u32, u64),
    current: (usize, u32, u64),
    frames_since_refresh: u32,
    work_pending: bool,
)
    requires
        current != previous,
    ensures
        spec_should_refresh_cloth_instance_aabbs(
            false,
            false,
            previous,
            frames_since_refresh,
            work_pending,
            current,
        ),
{
    any_identity_change_refreshes(previous, current, frames_since_refresh, work_pending);
}

/// Any identity change of a present target queues its transitions, audit or
/// not.
pub proof fn identity_change_queues_transitions(
    previous: (usize, u32, u64),
    current: (usize, u32, u64),
    periodic_audit: bool,
)
    requires
        current.0 != 0,
        current != previous,
    ensures
        spec_should_queue_cloth_scale_transitions(previous, current, periodic_audit),
{
    if current.0 == previous.0 && current.1 == previous.1 && current.2 == previous.2 {
        assert(current == previous);
    }
}

} // verus!
