//! Progress of a cloth object's dimension transition. Each transition writes
//! every captured field from its baseline, in bounded chunks across frames;
//! a transition completes only once all fields are written. The scaled values
//! themselves are computed by the caller.
use vstd::prelude::*;
use crate::config::{spec_valid_scale_bits, valid_scale_bits, UNIT_SCALE_BITS};

verus! {

/// Hull-cloth shape kinds whose dimensions are captured: capsule, tapered
/// capsule, sphere, plane and convex geometry.
pub open spec fn spec_supported_shape(vtable_rva: usize) -> bool {
    vtable_rva == 0x2D896D0 || vtable_rva == 0x2D7DBC8 || vtable_rva == 0x2D89D20 || vtable_rva
        == 0x2D84968 || vtable_rva == 0x2D7D580
}

/// Whether a collidable's shape is of a supported kind.
pub fn is_supported_shape_vtable(vtable_rva: usize) -> (r: bool)
    ensures
        r == spec_supported_shape(vtable_rva),
{
    vtable_rva == 0x2D896D0 || vtable_rva == 0x2D7DBC8 || vtable_rva == 0x2D89D20 || vtable_rva
        == 0x2D84968 || vtable_rva == 0x2D7D580
}

/// The plan for a request, and the state it leaves.
pub open spec fn spec_plan(p: DimensionProgress, scale_bits: u32, supported: bool, retained: bool) -> (
    ApplyPlan,
    DimensionProgress,
) {
    if !supported {
        (ApplyPlan::Reject, p)
    } else if scale_bits == UNIT_SCALE_BITS && retained {
        (ApplyPlan::Done, p)
    } else if p.applied_scale_bits == scale_bits && p.pending_scale_bits == 0 {
        (ApplyPlan::Done, DimensionProgress { next_field: 0, ..p })
    } else if p.active_update_failed && scale_bits != UNIT_SCALE_BITS {
        (ApplyPlan::Reject, p)
    } else if p.pending_scale_bits != scale_bits {
        (ApplyPlan::Start, DimensionProgress { pending_scale_bits: 0, next_field: 0, ..p })
    } else {
        (ApplyPlan::Continue, p)
    }
}

/// What a transition request does next.
#[derive(Clone, Copy, Debug, PartialEq, Eq, Structural)]
pub enum ApplyPlan {
    /// The request is refused; nothing is written.
    Reject,
    /// Nothing is to be written; the object is at the requested scale.
    Done,
    /// A new transition starts once the object's identity and writable
    /// spans are checked.
    Start,
    /// The pending transition continues.
    Continue,
}

/// The transition state of one object with captured fields.
#[derive(Clone, Copy, Debug, PartialEq, Eq, Structural)]
pub struct DimensionProgress {
    pub applied_scale_bits: u32,
    pub pending_scale_bits: u32,
    pub next_field: usize,
    pub active_update_failed: bool,
}

/// The state after a completed chunk: every field written at `scale_bits`.
pub open spec fn completed(scale_bits: u32) -> DimensionProgress {
    DimensionProgress {
        applied_scale_bits: scale_bits,
        pending_scale_bits: 0,
        next_field: 0,
        active_update_failed: false,
    }
}

impl DimensionProgress {
    /// A freshly captured object: at unit scale, nothing pending.
    pub fn new() -> (p: DimensionProgress)
        ensures
            p == completed(UNIT_SCALE_BITS),
    {
        DimensionProgress {
            applied_scale_bits: UNIT_SCALE_BITS,
            pending_scale_bits: 0,
            next_field: 0,
            active_update_failed: false,
        }
    }

    /// Decides a request for `scale_bits`. A scale the captured values
    /// cannot take is refused; a unit request for data a scaling consumer
    /// still uses is done without writes; a request for the applied scale
    /// with nothing pending is done; after a failed update only a unit
    /// request proceeds; a request other than the pending one starts over.
    pub fn plan(&mut self, scale_bits: u32, supported: bool, retained: bool) -> (plan: ApplyPlan)
        ensures
            (plan, *final(self)) == spec_plan(*old(self), scale_bits, supported, retained),
    {
        if !supported {
            return ApplyPlan::Reject;
        }
        if scale_bits == UNIT_SCALE_BITS && retained {
            return ApplyPlan::Done;
        }
        if self.applied_scale_bits == scale_bits && self.pending_scale_bits == 0 {
            self.pending_scale_bits = 0;
            self.next_field = 0;
            return ApplyPlan::Done;
        }
        if self.active_update_failed && scale_bits != UNIT_SCALE_BITS {
            return ApplyPlan::Reject;
        }
        if self.pending_scale_bits != scale_bits {
            self.pending_scale_bits = 0;
            self.next_field = 0;
            return ApplyPlan::Start;
        }
        ApplyPlan::Continue
    }

    /// Starts a transition to `scale_bits` once the object's identity and
    /// field spans were checked (`checks_ok`). An invalid scale or a failed
    /// check refuses the transition, and a refused non-unit transition marks
    /// the update failed.
    pub fn start(&mut self, scale_bits: u32, checks_ok: bool) -> (started: bool)
        ensures
            started == (spec_valid_scale_bits(scale_bits) && checks_ok),
            started ==> *final(self) == (DimensionProgress {
                pending_scale_bits: scale_bits,
                ..*old(self)
            }),
            !started ==> *final(self) == (DimensionProgress {
                active_update_failed: old(self).active_update_failed || scale_bits
                    != UNIT_SCALE_BITS,
                ..*old(self)
            }),
    {
        if !valid_scale_bits(scale_bits) || !checks_ok {
            if scale_bits != UNIT_SCALE_BITS {
                self.active_update_failed = true;
            }
            return false;
        }
        self.pending_scale_bits = scale_bits;
        true
    }

    /// The fields of the next chunk: from the next unwritten field, at most
    /// `maximum_fields` of them, not past the last.
    pub fn next_range(&self, field_count: usize, maximum_fields: usize) -> (range: (usize, usize))
        requires
            self.next_field <= field_count,
        ensures
            range.0 == self.next_field,
            range.0 <= range.1 <= field_count,
            range.1 == if self.next_field + maximum_fields < field_count {
                self.next_field + maximum_fields
            } else {
                field_count as int
            },
    {
        let end = self.next_field.saturating_add(maximum_fields);
        let end = if end < field_count {
            end
        } else {
            field_count
        };
        (self.next_field, end)
    }

    /// Records a written chunk ending at `end`. Returns the number of fields
    /// written and whether the transition completed; a completed transition
    /// applies `scale_bits` and clears the pending state and the failure.
    pub fn finish_range(&mut self, end: usize, field_count: usize, scale_bits: u32) -> (r: (
        usize,
        bool,
    ))
        requires
            old(self).next_field <= end <= field_count,
        ensures
            r.0 == end - old(self).next_field,
            r.1 == (end == field_count),
            r.1 ==> *final(self) == completed(scale_bits),
            !r.1 ==> *final(self) == (DimensionProgress { next_field: end, ..*old(self) }),
    {
        let writes = end - self.next_field;
        self.next_field = end;
        let complete = self.next_field == field_count;
        if complete {
            self.applied_scale_bits = scale_bits;
            self.pending_scale_bits = 0;
            self.next_field = 0;
            self.active_update_failed = false;
        }
        (writes, complete)
    }
}

/// What one budgeted application of a transition does.
#[derive(Clone, Copy, Debug, PartialEq, Eq, Structural)]
pub enum BudgetedStep {
    /// The request is refused; nothing is written.
    Reject,
    /// Nothing is to be written.
    Done,
    /// Write the fields from the first index up to the second, then record
    /// the chunk with `finish_range`.
    Write(usize, usize),
}

/// The chunk of a transition whose next field is `next`: at most
/// `maximum_fields` fields, not past the last.
pub open spec fn chunk(next: usize, field_count: usize, maximum_fields: usize) -> (usize, usize) {
    (next, if next + maximum_fields < field_count {
        (next + maximum_fields) as usize
    } else {
        field_count
    })
}

impl DimensionProgress {
    /// Decides one budgeted application of a request for `scale_bits`:
    /// planned as `plan` says, with the object's identity and writable
    /// spans checked by `checks` only when a new transition starts, and, when
    /// fields are to be written, the chunk of at most `maximum_fields` fields
    /// from the next unwritten one.
    pub fn begin_budgeted(
        &mut self,
        scale_bits: u32,
        supported: bool,
        retained: bool,
        field_count: usize,
        maximum_fields: usize,
        checks: impl FnOnce() -> bool,
    ) -> (step: BudgetedStep)
        requires
            old(self).next_field <= field_count,
            call_requires(checks, ()),
        ensures
            final(self).next_field <= field_count,
            ({
                let (plan, p) = spec_plan(*old(self), scale_bits, supported, retained);
                &&& plan == ApplyPlan::Reject ==> step == BudgetedStep::Reject && *final(self)
                    == *old(self)
                &&& plan == ApplyPlan::Done ==> step == BudgetedStep::Done && *final(self) == p
                &&& plan == ApplyPlan::Continue ==> *final(self) == p && step == BudgetedStep::Write(
                    chunk(p.next_field, field_count, maximum_fields).0,
                    chunk(p.next_field, field_count, maximum_fields).1,
                )
                &&& plan == ApplyPlan::Start ==> exists|ok: bool|
                    {
                        &&& #[trigger] call_ensures(checks, (), ok)
                        &&& spec_valid_scale_bits(scale_bits) && ok ==> *final(self) == (
                        DimensionProgress { pending_scale_bits: scale_bits, ..p }) && step
                            == BudgetedStep::Write(
                            chunk(0, field_count, maximum_fields).0,
                            chunk(0, field_count, maximum_fields).1,
                        )
                        &&& !(spec_valid_scale_bits(scale_bits) && ok) ==> step
                            == BudgetedStep::Reject && *final(self) == (DimensionProgress {
                            active_update_failed: p.active_update_failed || scale_bits
                                != UNIT_SCALE_BITS,
                            ..p
                        })
                    }
            }),
    {
        match self.plan(scale_bits, supported, retained) {
            ApplyPlan::Reject => BudgetedStep::Reject,
            ApplyPlan::Done => BudgetedStep::Done,
            ApplyPlan::Continue => {
                let (start, end) = self.next_range(field_count, maximum_fields);
                BudgetedStep::Write(start, end)
            },
            ApplyPlan::Start => {
                let ok = checks();
                if !self.start(scale_bits, ok) {
                    return BudgetedStep::Reject;
                }
                let (start, end) = self.next_range(field_count, maximum_fields);
                BudgetedStep::Write(start, end)
            },
        }
    }
}

/// After a failed update, every request for another non-unit scale is
/// refused; only a unit request proceeds.
pub proof fn failed_update_admits_only_unit(
    p: DimensionProgress,
    scale_bits: u32,
    supported: bool,
    retained: bool,
)
    requires
        p.active_update_failed,
        scale_bits != UNIT_SCALE_BITS,
        !(p.applied_scale_bits == scale_bits && p.pending_scale_bits == 0),
    ensures
        spec_plan(p, scale_bits, supported, retained).0 == ApplyPlan::Reject,
{
}

/// Once a transition completed, asking for the same scale again writes
/// nothing: transitions do not compound.
pub proof fn completed_transition_is_not_repeated(scale_bits: u32, supported: bool, retained: bool)
    requires
        supported,
    ensures
        spec_plan(completed(scale_bits), scale_bits, supported, retained).0 == ApplyPlan::Done,
{
}


/// A supported unit request for an object whose data a scaling consumer
/// still uses writes nothing and leaves the progress as it was, whatever
/// scale is applied or pending: a departing consumer never restores data
/// another one still uses at a non-unit scale.
pub proof fn retained_unit_request_writes_nothing(p: DimensionProgress)
    ensures
        spec_plan(p, UNIT_SCALE_BITS, true, true) == (ApplyPlan::Done, p),
{
}

/// A refused request never changes the progress.
pub proof fn unsupported_request_changes_nothing(p: DimensionProgress, scale_bits: u32, retained: bool)
    ensures
        spec_plan(p, scale_bits, false, retained) == (ApplyPlan::Reject, p),
{
}


/// A supported request for the scale already applied, with nothing
/// pending, writes nothing and changes neither scale.
pub proof fn settled_request_writes_nothing(p: DimensionProgress, scale_bits: u32, retained: bool)
    requires
        p.applied_scale_bits == scale_bits,
        p.pending_scale_bits == 0,
    ensures
        spec_plan(p, scale_bits, true, retained).0 == ApplyPlan::Done,
        spec_plan(p, scale_bits, true, retained).1.applied_scale_bits == scale_bits,
        spec_plan(p, scale_bits, true, retained).1.pending_scale_bits == 0,
{
}

} // verus!
