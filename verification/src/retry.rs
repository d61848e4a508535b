//! Bounded retry policies for cloth objects whose capture or cache write
//! failed: a transient failure earns one immediate retry, after which the
//! object waits for the periodic audit.
use vstd::prelude::*;

verus! {

/// Capture attempts an object may use per rejection epoch.
pub const MAX_CAPTURE_ATTEMPTS_PER_EPOCH: u8 = 2;

/// The failed capture attempts of one object in the current epoch.
#[derive(Clone, Copy, Debug, PartialEq, Eq, Structural)]
pub struct RejectedObjectCapture {
    pub address: usize,
    pub attempts: u8,
}

/// The index of the first entry for `address`, if any.
pub open spec fn first_entry(rejected: Seq<RejectedObjectCapture>, address: usize, i: nat) -> Option<
    nat,
>
    decreases rejected.len() - i,
{
    if i >= rejected.len() {
        None
    } else if rejected[i as int].address == address {
        Some(i)
    } else {
        first_entry(rejected, address, i + 1)
    }
}

/// An object may be captured while it has no record, or while its record
/// has fewer attempts than an epoch allows.
pub open spec fn spec_capture_attempt_allowed(
    rejected: Seq<RejectedObjectCapture>,
    address: usize,
) -> bool {
    match first_entry(rejected, address, 0) {
        None => true,
        Some(i) => rejected[i as int].attempts < MAX_CAPTURE_ATTEMPTS_PER_EPOCH,
    }
}

/// One more, saturating.
pub open spec fn saturating_inc8(x: u8) -> u8 {
    if x == u8::MAX {
        u8::MAX
    } else {
        (x + 1) as u8
    }
}

/// The entries and the answer after recording one more failed attempt.
pub open spec fn spec_record_capture_rejection(
    rejected: Seq<RejectedObjectCapture>,
    address: usize,
) -> (Seq<RejectedObjectCapture>, bool) {
    match first_entry(rejected, address, 0) {
        Some(i) => {
            let attempts = saturating_inc8(rejected[i as int].attempts);
            (
                rejected.update(i as int, RejectedObjectCapture { address, attempts }),
                attempts < MAX_CAPTURE_ATTEMPTS_PER_EPOCH,
            )
        },
        None => (rejected.push(RejectedObjectCapture { address, attempts: 1 }), true),
    }
}

/// The records after an object's capture succeeded: its own are dropped.
pub open spec fn spec_resolve_capture_rejection(
    rejected: Seq<RejectedObjectCapture>,
    address: usize,
) -> Seq<RejectedObjectCapture> {
    rejected.filter(|entry: RejectedObjectCapture| entry.address != address)
}

proof fn lemma_first_entry(rejected: Seq<RejectedObjectCapture>, address: usize, i: nat)
    ensures
        match first_entry(rejected, address, i) {
            Some(j) => i <= j < rejected.len() && rejected[j as int].address == address && forall|
                k: int,
            | i <= k < j ==> rejected[k].address != address,
            None => forall|k: int| i <= k < rejected.len() ==> rejected[k].address != address,
        },
    decreases rejected.len() - i,
{
    if i < rejected.len() && rejected[i as int].address != address {
        lemma_first_entry(rejected, address, i + 1);
    }
}

proof fn lemma_first_entry_found(rejected: Seq<RejectedObjectCapture>, address: usize, j: nat)
    requires
        j < rejected.len(),
        rejected[j as int].address == address,
        forall|k: int| 0 <= k < j ==> rejected[k].address != address,
    ensures
        first_entry(rejected, address, 0) == Some(j),
{
    lemma_first_entry(rejected, address, 0);
}

fn find_entry(rejected: &[RejectedObjectCapture], address: usize) -> (r: Option<usize>)
    ensures
        match first_entry(rejected@, address, 0) {
            Some(i) => r == Some(i as usize),
            None => r is None,
        },
        r matches Some(i) ==> i < rejected@.len() && rejected@[i as int].address == address,
{
    let mut i: usize = 0;
    while i < rejected.len()
        invariant
            0 <= i <= rejected@.len(),
            forall|k: int| 0 <= k < i ==> rejected@[k].address != address,
        decreases rejected@.len() - i,
    {
        if rejected[i].address == address {
            proof {
                lemma_first_entry_found(rejected@, address, i as nat);
            }
            return Some(i);
        }
        i = i + 1;
    }
    proof {
        lemma_first_entry(rejected@, address, 0);
        if first_entry(rejected@, address, 0) is Some {
            let j = first_entry(rejected@, address, 0)->0;
            assert(rejected@[j as int].address == address);
        }
    }
    None
}

/// An object may be captured unless it already failed the allowed number
/// of attempts in this epoch.
pub fn capture_attempt_allowed(rejected: &[RejectedObjectCapture], address: usize) -> (r: bool)
    ensures
        r == spec_capture_attempt_allowed(rejected@, address),
{
    let found = find_entry(rejected, address);
    match found {
        Some(i) => {
            proof {
                lemma_first_entry(rejected@, address, 0);
                assert(first_entry(rejected@, address, 0) == Some(i as nat));
            }
            rejected[i].attempts < MAX_CAPTURE_ATTEMPTS_PER_EPOCH
        },
        None => true,
    }
}

/// Records a failed capture of an object and says whether it may still be
/// retried in this epoch (the first failure may, later ones may not).
pub fn record_capture_rejection(rejected: &mut Vec<RejectedObjectCapture>, address: usize) -> (r:
    bool)
    ensures
        (final(rejected)@, r) == spec_record_capture_rejection(old(rejected)@, address),
{
    let found = find_entry(rejected.as_slice(), address);
    match found {
        Some(i) => {
            proof {
                lemma_first_entry(old(rejected)@, address, 0);
                assert(first_entry(old(rejected)@, address, 0) == Some(i as nat));
            }
            let previous = rejected[i].attempts;
            let attempts = if previous == u8::MAX {
                previous
            } else {
                previous + 1
            };
            rejected.set(i, RejectedObjectCapture { address, attempts });
            attempts < MAX_CAPTURE_ATTEMPTS_PER_EPOCH
        },
        None => {
            rejected.push(RejectedObjectCapture { address, attempts: 1 });
            true
        },
    }
}

/// Forgets the failed attempts of an object that has now been captured.
pub fn resolve_capture_rejection(rejected: &mut Vec<RejectedObjectCapture>, address: usize)
    ensures
        final(rejected)@ == spec_resolve_capture_rejection(old(rejected)@, address),
{
    let mut kept: Vec<RejectedObjectCapture> = Vec::new();
    let mut i: usize = 0;
    while i < rejected.len()
        invariant
            0 <= i <= rejected@.len(),
            kept@ == rejected@.subrange(0, i as int).filter(
                |entry: RejectedObjectCapture| entry.address != address,
            ),
        decreases rejected@.len() - i,
    {
        let entry = rejected[i];
        proof {
            assert(rejected@.subrange(0, i + 1).drop_last() =~= rejected@.subrange(0, i as int));
            reveal(Seq::filter);
        }
        if entry.address != address {
            kept.push(entry);
        }
        i = i + 1;
    }
    proof {
        assert(rejected@.subrange(0, rejected@.len() as int) =~= rejected@);
    }
    *rejected = kept;
}

/// An object still needs a capture: it has no baseline yet and its
/// attempts in this epoch are not exhausted.
pub fn object_capture_pending(
    captured: &[usize],
    rejected: &[RejectedObjectCapture],
    address: usize,
) -> (r: bool)
    ensures
        r == (!captured@.contains(address) && spec_capture_attempt_allowed(rejected@, address)),
{
    let mut i: usize = 0;
    while i < captured.len()
        invariant
            0 <= i <= captured@.len(),
            forall|k: int| 0 <= k < i ==> captured@[k] != address,
        decreases captured@.len() - i,
    {
        if captured[i] == address {
            assert(captured@.contains(address)) by {
                assert(captured@[i as int] == address);
            }
            return false;
        }
        i = i + 1;
    }
    capture_attempt_allowed(rejected, address)
}

/// New objects a local scale pass may capture.
pub const MAX_NEW_OBJECTS_PER_PASS: usize = 1;

/// The walk over a live list after its first `n` objects: the objects to
/// capture, how many were deferred because their attempts are exhausted,
/// the capture budget left, and whether the walk stopped at an object it
/// had no budget for. Captured objects are skipped.
pub open spec fn spec_walk(
    live: Seq<usize>,
    captured: Seq<usize>,
    rejected: Seq<RejectedObjectCapture>,
    budget: nat,
    n: nat,
) -> (Seq<usize>, nat, nat, bool)
    decreases n,
{
    if n == 0 {
        (Seq::empty(), 0, budget, false)
    } else {
        let (attempts, deferred, left, stopped) = spec_walk(live, captured, rejected, budget, (n - 1) as nat);
        let a = live[n - 1];
        if stopped || captured.contains(a) {
            (attempts, deferred, left, stopped)
        } else if !spec_capture_attempt_allowed(rejected, a) {
            (attempts, deferred + 1, left, false)
        } else if left == 0 {
            (attempts, deferred, left, true)
        } else {
            (attempts.push(a), deferred, (left - 1) as nat, false)
        }
    }
}

/// What one capture walk decided.
pub struct CaptureWalk {
    /// The objects to capture, in live order.
    pub attempts: Vec<usize>,
    /// The objects skipped because their attempts are exhausted.
    pub deferred: usize,
    /// The capture budget left for the next list.
    pub budget: usize,
}

/// Walks a live list in order: objects with a baseline are skipped, objects
/// whose attempts are exhausted are deferred, and the others are captured
/// while the budget lasts; the walk stops at the first one it has no budget
/// for. Live lists hold each object once, so an attempt's outcome never
/// changes the rest of the walk.
pub fn plan_captures(
    live: &Vec<usize>,
    captured: &Vec<usize>,
    rejected: &Vec<RejectedObjectCapture>,
    budget: usize,
) -> (walk: CaptureWalk)
    ensures
        ({
            let (attempts, deferred, left, _) = spec_walk(
                live@,
                captured@,
                rejected@,
                budget as nat,
                live@.len(),
            );
            walk.attempts@ == attempts && walk.deferred == deferred && walk.budget == left
        }),
{
    let mut attempts: Vec<usize> = Vec::new();
    let mut deferred: usize = 0;
    let mut left: usize = budget;
    let mut i: usize = 0;
    let mut stopped = false;
    while i < live.len()
        invariant
            0 <= i <= live@.len(),
            deferred <= i,
            spec_walk(live@, captured@, rejected@, budget as nat, i as nat) == (
                attempts@,
                deferred as nat,
                left as nat,
                stopped,
            ),
        decreases live@.len() - i,
    {
        let a = live[i];
        if !stopped && !object_in(captured, a) {
            if !capture_attempt_allowed(rejected.as_slice(), a) {
                deferred = deferred + 1;
            } else if left == 0 {
                stopped = true;
            } else {
                attempts.push(a);
                left = left - 1;
            }
        }
        i = i + 1;
    }
    CaptureWalk { attempts, deferred, budget: left }
}

fn object_in(list: &Vec<usize>, address: usize) -> (r: bool)
    ensures
        r == list@.contains(address),
{
    let mut i: usize = 0;
    while i < list.len()
        invariant
            0 <= i <= list@.len(),
            forall|k: int| 0 <= k < i ==> list@[k] != address,
        decreases list@.len() - i,
    {
        if list[i] == address {
            assert(list@[i as int] == address);
            return true;
        }
        i = i + 1;
    }
    false
}

/// Keeps only the records of objects that are still live.
pub fn retain_live(rejected: &mut Vec<RejectedObjectCapture>, live: &Vec<usize>)
    ensures
        final(rejected)@ == old(rejected)@.filter(
            |entry: RejectedObjectCapture| live@.contains(entry.address),
        ),
{
    let mut kept: Vec<RejectedObjectCapture> = Vec::new();
    let mut i: usize = 0;
    while i < rejected.len()
        invariant
            0 <= i <= rejected@.len(),
            kept@ == rejected@.subrange(0, i as int).filter(
                |entry: RejectedObjectCapture| live@.contains(entry.address),
            ),
        decreases rejected@.len() - i,
    {
        let entry = rejected[i];
        proof {
            assert(rejected@.subrange(0, i + 1).drop_last() =~= rejected@.subrange(0, i as int));
            reveal(Seq::filter);
        }
        if object_in(live, entry.address) {
            kept.push(entry);
        }
        i = i + 1;
    }
    proof {
        assert(rejected@.subrange(0, rejected@.len() as int) =~= rejected@);
    }
    *rejected = kept;
}

/// The capture records of a local scale pass, one list per kind of object,
/// kept for one rejection epoch: a target, requested scale and topology
/// generation.
pub struct LocalRejections {
    pub epoch: Option<(usize, u32, u64)>,
    pub simulations: Vec<RejectedObjectCapture>,
    pub collidables: Vec<RejectedObjectCapture>,
    pub shapes: Vec<RejectedObjectCapture>,
}

impl LocalRejections {
    /// No epoch yet and no records.
    pub fn new() -> (r: LocalRejections)
        ensures
            r.epoch is None,
            r.simulations@.len() == 0,
            r.collidables@.len() == 0,
            r.shapes@.len() == 0,
    {
        LocalRejections {
            epoch: None,
            simulations: Vec::new(),
            collidables: Vec::new(),
            shapes: Vec::new(),
        }
    }

    /// Enters the epoch `current`; when it differs from the last one, every
    /// record is forgotten. Returns whether the records were reset.
    pub fn begin_epoch(&mut self, current: (usize, u32, u64)) -> (reset: bool)
        ensures
            reset == (old(self).epoch != Some(current)),
            final(self).epoch == Some(current),
            reset ==> final(self).simulations@.len() == 0 && final(self).collidables@.len() == 0
                && final(self).shapes@.len() == 0,
            !reset ==> final(self).simulations@ == old(self).simulations@ && final(self).collidables@
                == old(self).collidables@ && final(self).shapes@ == old(self).shapes@,
    {
        let same = match self.epoch {
            Some(e) => e.0 == current.0 && e.1 == current.1 && e.2 == current.2,
            None => false,
        };
        if !same {
            self.simulations = Vec::new();
            self.collidables = Vec::new();
            self.shapes = Vec::new();
            self.epoch = Some(current);
        }
        !same
    }

    /// Keeps only the records of objects that are still live.
    pub fn retain_live(&mut self, simulations: &Vec<usize>, collidables: &Vec<usize>, shapes: &Vec<usize>)
        ensures
            final(self).epoch == old(self).epoch,
            final(self).simulations@ == old(self).simulations@.filter(
                |entry: RejectedObjectCapture| simulations@.contains(entry.address),
            ),
            final(self).collidables@ == old(self).collidables@.filter(
                |entry: RejectedObjectCapture| collidables@.contains(entry.address),
            ),
            final(self).shapes@ == old(self).shapes@.filter(
                |entry: RejectedObjectCapture| shapes@.contains(entry.address),
            ),
    {
        retain_live(&mut self.simulations, simulations);
        retain_live(&mut self.collidables, collidables);
        retain_live(&mut self.shapes, shapes);
    }
}

/// A capture walk spends its budget exactly on its attempts, and attempts
/// only live objects that have no baseline and attempts left.
pub proof fn walk_respects_the_budget(
    live: Seq<usize>,
    captured: Seq<usize>,
    rejected: Seq<RejectedObjectCapture>,
    budget: nat,
    n: nat,
)
    requires
        n <= live.len(),
    ensures
        ({
            let (attempts, deferred, left, _) = spec_walk(live, captured, rejected, budget, n);
            &&& attempts.len() + left == budget
            &&& deferred <= n
            &&& forall|k: int|
                0 <= k < attempts.len() ==> live.subrange(0, n as int).contains(#[trigger] attempts[k])
                    && !captured.contains(attempts[k]) && spec_capture_attempt_allowed(
                    rejected,
                    attempts[k],
                )
        }),
    decreases n,
{
    if n > 0 {
        walk_respects_the_budget(live, captured, rejected, budget, (n - 1) as nat);
        let (attempts, deferred, left, stopped) = spec_walk(live, captured, rejected, budget, (n - 1) as nat);
        let a = live[n - 1];
        assert forall|k: int| 0 <= k < attempts.len() && live.subrange(0, n - 1).contains(
            #[trigger] attempts[k],
        ) implies live.subrange(0, n as int).contains(attempts[k]) by {
            let q = choose|q: int| 0 <= q < n - 1 && #[trigger] live.subrange(0, n - 1)[q] == attempts[k];
            assert(live.subrange(0, n as int)[q] == attempts[k]);
        }
        assert(live.subrange(0, n as int)[n - 1] == a);
    }
}

/// A transient capture failure earns exactly one immediate retry per epoch:
/// after the first failure the object may be retried, after the second it
/// may not, and a successful capture clears its record.
pub proof fn one_bounded_retry_per_epoch(rejected: Seq<RejectedObjectCapture>, address: usize)
    requires
        first_entry(rejected, address, 0) is None,
    ensures
        ({
            let (once, first_retry) = spec_record_capture_rejection(rejected, address);
            let (twice, second_retry) = spec_record_capture_rejection(once, address);
            &&& first_retry
            &&& spec_capture_attempt_allowed(once, address)
            &&& !second_retry
            &&& !spec_capture_attempt_allowed(twice, address)
            &&& spec_capture_attempt_allowed(spec_resolve_capture_rejection(twice, address), address)
        }),
{
    let once = rejected.push(RejectedObjectCapture { address, attempts: 1 });
    lemma_first_entry(rejected, address, 0);
    lemma_first_entry_found(once, address, rejected.len());
    let twice = once.update(rejected.len() as int, RejectedObjectCapture { address, attempts: 2 });
    lemma_first_entry_found(twice, address, rejected.len());
    let resolved = spec_resolve_capture_rejection(twice, address);
    lemma_first_entry(resolved, address, 0);
    if first_entry(resolved, address, 0) is Some {
        let j = first_entry(resolved, address, 0)->0;
        twice.lemma_filter_pred(|entry: RejectedObjectCapture| entry.address != address, j as int);
    }
}

/// Recording a failure of one object never changes whether another may be
/// captured.
pub proof fn rejection_records_are_per_object(
    rejected: Seq<RejectedObjectCapture>,
    address: usize,
    other: usize,
)
    requires
        address != other,
    ensures
        spec_capture_attempt_allowed(spec_record_capture_rejection(rejected, address).0, other)
            == spec_capture_attempt_allowed(rejected, other),
{
    let after = spec_record_capture_rejection(rejected, address).0;
    lemma_first_entry(rejected, address, 0);
    lemma_first_entry(rejected, other, 0);
    lemma_first_entry(after, other, 0);
    assert(forall|k: int| 0 <= k < rejected.len() ==> #[trigger] after[k].address == rejected[k].address);
    match first_entry(rejected, other, 0) {
        Some(j) => {
            lemma_first_entry_found(after, other, j);
        },
        None => {
            if first_entry(after, other, 0) is Some {
                let j = first_entry(after, other, 0)->0;
                assert(after[j as int].address == other);
            }
        },
    }
}

/// Clearing one object keeps exactly the records of every other object.
pub proof fn resolve_keeps_other_records(
    rejected: Seq<RejectedObjectCapture>,
    address: usize,
    entry: RejectedObjectCapture,
)
    ensures
        spec_resolve_capture_rejection(rejected, address).contains(entry) <==> (rejected.contains(
            entry,
        ) && entry.address != address),
{
    let pred = |e: RejectedObjectCapture| e.address != address;
    let resolved = rejected.filter(pred);
    if resolved.contains(entry) {
        rejected.lemma_filter_contains_rev(pred, entry);
        let j = choose|j: int| 0 <= j < resolved.len() && resolved[j] == entry;
        rejected.lemma_filter_pred(pred, j);
    }
    if rejected.contains(entry) && entry.address != address {
        let i = choose|i: int| 0 <= i < rejected.len() && rejected[i] == entry;
        rejected.lemma_filter_contains(pred, i);
    }
}


/// The identity of a cloth child whose collision AABBs failed.
#[derive(Clone, Copy, Debug, PartialEq, Eq, Structural)]
pub struct ClothInstanceAabbRetry {
    pub child: usize,
    pub child_vtable: usize,
    pub sim_data: usize,
}

impl ClothInstanceAabbRetry {
    /// The retry identity of a child: its address, vtable and simulation data.
    pub fn from_child(child: usize, child_vtable: usize, sim_data: usize) -> (r: Self)
        ensures
            r == (ClothInstanceAabbRetry { child, child_vtable, sim_data }),
    {
        ClothInstanceAabbRetry { child, child_vtable, sim_data }
    }

    /// The same child object: address, vtable and simulation data all agree.
    pub fn identity_matches(&self, child: &ClothInstanceAabbRetry) -> (r: bool)
        ensures
            r == (*self == *child),
    {
        self.child == child.child && self.child_vtable == child.child_vtable && self.sim_data
            == child.sim_data
    }
}

/// The step of the collision-AABB pass that rejected a child.
#[derive(Clone, Copy, Debug, PartialEq, Eq, Structural)]
pub enum RejectionStage {
    Baseline,
    Target,
    Write,
}

/// Counters of one collision-AABB pass.
#[derive(Clone, Copy, Debug, Default, PartialEq, Eq)]
pub struct ClothInstanceAabbScaleResult {
    pub topology_readable: bool,
    pub instances: usize,
    pub children: usize,
    pub active_children: usize,
    pub captured_children: usize,
    pub dropped_children: usize,
    pub aabbs_written: usize,
    pub fields_written: usize,
    pub already_current: usize,
    pub non_target_generation_children: usize,
    pub detached_children: usize,
    pub native_managed_children: usize,
    pub rejected_children: usize,
    pub baseline_rejected_children: usize,
    pub target_rejected_children: usize,
    pub write_rejected_children: usize,
    pub deferred_rejected_children: usize,
    pub work_pending: bool,
}

/// Counters of one cloth local-dimension pass.
#[derive(Clone, Copy, Debug, Default, PartialEq, Eq)]
pub struct ClothLocalScaleResult {
    pub topology_readable: bool,
    pub simulations: usize,
    pub collidables: usize,
    pub supported_shapes: usize,
    pub unsupported_shapes: usize,
    pub captured_objects: usize,
    pub restored_objects: usize,
    pub fields_written: usize,
    pub rejected_objects: usize,
    pub topology_rejected_objects: usize,
    pub capture_rejected_objects: usize,
    pub apply_rejected_objects: usize,
    pub stale_restore_rejected_objects: usize,
    pub deferred_rejected_objects: usize,
    pub unsupported_layouts: usize,
    pub work_pending: bool,
}

/// The unresolved children that already used their immediate retry, for the
/// current target and requested scale.
pub struct AabbRetryState {
    pub target_input: usize,
    pub last_requested_scale_bits: u32,
    pub immediate_retries: Vec<ClothInstanceAabbRetry>,
}

impl AabbRetryState {
    /// No target and no pending retries.
    pub fn new() -> (s: Self)
        ensures
            s.target_input == 0,
            s.last_requested_scale_bits == 0,
            s.immediate_retries@ == Seq::<ClothInstanceAabbRetry>::empty(),
    {
        AabbRetryState { target_input: 0, last_requested_scale_bits: 0, immediate_retries: Vec::new() }
    }

    /// Records a rejected child. A baseline or write failure earns one
    /// immediate retry (work stays pending); a repeated failure, or a target
    /// calculation failure against an existing baseline, waits for the audit.
    pub fn record_rejection(
        &mut self,
        child: ClothInstanceAabbRetry,
        stage: RejectionStage,
        result: &mut ClothInstanceAabbScaleResult,
    )
        requires
            old(result).rejected_children < usize::MAX,
            old(result).baseline_rejected_children < usize::MAX,
            old(result).target_rejected_children < usize::MAX,
            old(result).write_rejected_children < usize::MAX,
            old(result).deferred_rejected_children < usize::MAX,
        ensures
            final(result).rejected_children == old(result).rejected_children + 1,
            final(result).baseline_rejected_children == old(result).baseline_rejected_children + (
            if stage == RejectionStage::Baseline {
                1int
            } else {
                0
            }),
            final(result).target_rejected_children == old(result).target_rejected_children + (
            if stage == RejectionStage::Target {
                1int
            } else {
                0
            }),
            final(result).write_rejected_children == old(result).write_rejected_children + (
            if stage == RejectionStage::Write {
                1int
            } else {
                0
            }),
            final(self).target_input == old(self).target_input,
            final(self).last_requested_scale_bits == old(self).last_requested_scale_bits,
            ({
                let retry_now = stage != RejectionStage::Target && !old(self).immediate_retries@.contains(child);
                &&& retry_now ==> final(self).immediate_retries@ == old(self).immediate_retries@.push(
                    child,
                )
                &&& retry_now ==> final(result).work_pending
                &&& retry_now ==> final(result).deferred_rejected_children == old(result).deferred_rejected_children
                &&& !retry_now ==> final(self).immediate_retries@ == old(self).immediate_retries@
                &&& !retry_now ==> final(result).work_pending == old(result).work_pending
                &&& !retry_now ==> final(result).deferred_rejected_children == old(result).deferred_rejected_children + 1
            }),
            final(result).topology_readable == old(result).topology_readable,
            final(result).instances == old(result).instances,
            final(result).children == old(result).children,
            final(result).active_children == old(result).active_children,
            final(result).captured_children == old(result).captured_children,
            final(result).dropped_children == old(result).dropped_children,
            final(result).aabbs_written == old(result).aabbs_written,
            final(result).fields_written == old(result).fields_written,
            final(result).already_current == old(result).already_current,
            final(result).non_target_generation_children == old(result).non_target_generation_children,
            final(result).detached_children == old(result).detached_children,
            final(result).native_managed_children == old(result).native_managed_children,
    {
        result.rejected_children = result.rejected_children + 1;
        match stage {
            RejectionStage::Baseline => {
                result.baseline_rejected_children = result.baseline_rejected_children + 1;
            },
            RejectionStage::Target => {
                result.target_rejected_children = result.target_rejected_children + 1;
            },
            RejectionStage::Write => {
                result.write_rejected_children = result.write_rejected_children + 1;
            },
        }
        // A target calculation that fails against an existing baseline depends
        // on the live solver buffer changing; re-reading it every frame cannot
        // repair it, so it is left to the bounded audit.
        let retryable = stage != RejectionStage::Target;
        if retryable && !self.has_retry(&child) {
            self.immediate_retries.push(child);
            result.work_pending = true;
        } else {
            result.deferred_rejected_children = result.deferred_rejected_children + 1;
        }
    }

    fn has_retry(&self, child: &ClothInstanceAabbRetry) -> (r: bool)
        ensures
            r == self.immediate_retries@.contains(*child),
    {
        let mut i: usize = 0;
        while i < self.immediate_retries.len()
            invariant
                0 <= i <= self.immediate_retries@.len(),
                forall|k: int| 0 <= k < i ==> self.immediate_retries@[k] != *child,
            decreases self.immediate_retries@.len() - i,
        {
            if self.immediate_retries[i].identity_matches(child) {
                assert(self.immediate_retries@[i as int] == *child);
                return true;
            }
            i = i + 1;
        }
        false
    }

    /// Forgets the retry of a child that is now resolved.
    pub fn resolve_retry(&mut self, child: &ClothInstanceAabbRetry)
        ensures
            final(self).immediate_retries@ == old(self).immediate_retries@.filter(
                |retry: ClothInstanceAabbRetry| retry != *child,
            ),
            final(self).target_input == old(self).target_input,
            final(self).last_requested_scale_bits == old(self).last_requested_scale_bits,
    {
        let mut kept: Vec<ClothInstanceAabbRetry> = Vec::new();
        let mut i: usize = 0;
        while i < self.immediate_retries.len()
            invariant
                0 <= i <= self.immediate_retries@.len(),
                kept@ == self.immediate_retries@.subrange(0, i as int).filter(
                    |retry: ClothInstanceAabbRetry| retry != *child,
                ),
            decreases self.immediate_retries@.len() - i,
        {
            let retry = self.immediate_retries[i];
            proof {
                assert(self.immediate_retries@.subrange(0, i + 1).drop_last()
                    =~= self.immediate_retries@.subrange(0, i as int));
                reveal(Seq::filter);
            }
            if !retry.identity_matches(child) {
                kept.push(retry);
            }
            i = i + 1;
        }
        proof {
            assert(self.immediate_retries@.subrange(0, self.immediate_retries@.len() as int)
                =~= self.immediate_retries@);
        }
        self.immediate_retries = kept;
    }

    /// Starts a pass for a target at a requested scale: a new target forgets
    /// everything, and a new requested scale forgets the used retries.
    pub fn begin_pass(&mut self, target_input: usize, requested_bits: u32)
        ensures
            final(self).target_input == target_input,
            final(self).last_requested_scale_bits == requested_bits,
            (old(self).target_input != 0 && old(self).target_input != target_input)
                || old(self).last_requested_scale_bits != requested_bits ==> final(self).immediate_retries@ == Seq::<ClothInstanceAabbRetry>::empty(),
            !((old(self).target_input != 0 && old(self).target_input != target_input)
                || old(self).last_requested_scale_bits != requested_bits) ==> final(self).immediate_retries@ == old(self).immediate_retries@,
    {
        if self.target_input != 0 && self.target_input != target_input {
            self.immediate_retries = Vec::new();
            self.last_requested_scale_bits = 0;
        }
        self.target_input = target_input;
        if self.last_requested_scale_bits != requested_bits {
            self.last_requested_scale_bits = requested_bits;
            self.immediate_retries = Vec::new();
        }
    }
}

/// A repeated baseline or write failure of the same unresolved child gets no
/// second immediate retry; once resolved, a later failure gets one again.
pub proof fn aabb_failures_get_at_most_one_immediate_retry(
    retries: Seq<ClothInstanceAabbRetry>,
    child: ClothInstanceAabbRetry,
)
    requires
        retries.contains(child),
    ensures
        !retries.filter(|retry: ClothInstanceAabbRetry| retry != child).contains(child),
{
    let pred = |retry: ClothInstanceAabbRetry| retry != child;
    let kept = retries.filter(pred);
    if kept.contains(child) {
        let j = choose|j: int| 0 <= j < kept.len() && kept[j] == child;
        retries.lemma_filter_pred(pred, j);
    }
}
} // verus!
