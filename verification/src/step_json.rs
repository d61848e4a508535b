//! The `ordered_steps` member of a capture report: a header naming the
//! capture's policy and limits, then one object per recorded step slot
//! whose mesh boundary has a source, in slot order, separated by commas.
//! Each object starts with its slot index; the rest of its members (frame,
//! errors, mesh, outer record, witnesses and events) come encoded from the
//! recorders that own them.
use vstd::prelude::*;
use vstd::string::StringSliceAdditionalSpecFns;

verus! {

/// The delay before steps are captured, in milliseconds.
pub const START_MS: u64 = 1200;

/// The step slots of a capture.
pub const STEPS: usize = 3;

/// The events one step records at most.
pub const EVENTS: usize = 20;

/// One recorded step slot.
pub struct StepRecord {
    /// Whether the step's mesh boundary has a source; only such steps are
    /// written.
    pub mesh_source: bool,
    /// The step's members after its index, from `,"frame":` through the
    /// closing brace.
    pub members: Vec<u8>,
}

/// The ASCII decimal digits of `n`.
pub open spec fn decimal(n: nat) -> Seq<u8>
    decreases n,
{
    if n < 10 {
        seq![(48 + n) as u8]
    } else {
        decimal(n / 10).push((48 + n % 10) as u8)
    }
}

/// The bytes before the first step.
pub open spec fn steps_header(copy_budget_us: u64) -> Seq<u8> {
    ",\"ordered_steps\":{\"version\":2,\"budget_policy\":\"complete-step-measure-only\",\"start_ms\":1200,\"max_steps\":3,\"max_events\":20,\"copy_budget_us\":".spec_bytes()
        + decimal(copy_budget_us as nat) + ",\"steps\":[".spec_bytes()
}

/// The object of the step in slot `index`.
pub open spec fn step_object(index: nat, members: Seq<u8>) -> Seq<u8> {
    "{\"index\":".spec_bytes() + decimal(index) + members
}

/// How many of the first `n` slots are written.
pub open spec fn emitted(steps: Seq<StepRecord>, n: nat) -> nat
    decreases n,
{
    if n == 0 {
        0
    } else {
        emitted(steps, (n - 1) as nat) + if steps[n - 1].mesh_source {
            1nat
        } else {
            0
        }
    }
}

/// The objects of the first `n` slots that are written, in slot order,
/// separated by commas.
pub open spec fn step_objects(steps: Seq<StepRecord>, n: nat) -> Seq<u8>
    decreases n,
{
    if n == 0 {
        Seq::empty()
    } else {
        let before = step_objects(steps, (n - 1) as nat);
        if !steps[n - 1].mesh_source {
            before
        } else if emitted(steps, (n - 1) as nat) == 0 {
            step_object((n - 1) as nat, steps[n - 1].members@)
        } else {
            before + ",".spec_bytes() + step_object((n - 1) as nat, steps[n - 1].members@)
        }
    }
}

/// The whole `ordered_steps` member.
pub open spec fn spec_ordered_steps(copy_budget_us: u64, steps: Seq<StepRecord>) -> Seq<u8> {
    steps_header(copy_budget_us) + step_objects(steps, steps.len()) + "]}".spec_bytes()
}

fn push_bytes(out: &mut Vec<u8>, bytes: &[u8])
    ensures
        final(out)@ == old(out)@ + bytes@,
{
    let mut i: usize = 0;
    while i < bytes.len()
        invariant
            0 <= i <= bytes@.len(),
            out@ == old(out)@ + bytes@.subrange(0, i as int),
        decreases bytes@.len() - i,
    {
        out.push(bytes[i]);
        proof {
            assert(bytes@.subrange(0, i + 1) =~= bytes@.subrange(0, i as int).push(bytes@[i as int]));
        }
        i = i + 1;
    }
    proof {
        assert(bytes@.subrange(0, bytes@.len() as int) =~= bytes@);
    }
}

fn push_str(out: &mut Vec<u8>, s: &str)
    ensures
        final(out)@ == old(out)@ + s.spec_bytes(),
{
    push_bytes(out, s.as_bytes());
}

fn push_decimal(out: &mut Vec<u8>, n: u64)
    ensures
        final(out)@ == old(out)@ + decimal(n as nat),
    decreases n,
{
    if n < 10 {
        out.push((48 + n) as u8);
        proof {
            assert(old(out)@ + decimal(n as nat) =~= old(out)@.push((48 + n) as u8));
        }
    } else {
        push_decimal(out, n / 10);
        let ghost mid = out@;
        out.push((48 + n % 10) as u8);
        proof {
            assert(decimal(n as nat) == decimal((n / 10) as nat).push((48 + n % 10) as u8));
            assert(out@ =~= old(out)@ + decimal(n as nat));
        }
    }
}

/// Encodes the `ordered_steps` member: the header with the capture's
/// limits and copy budget, then the object of every slot whose mesh
/// boundary has a source, in slot order, each led by its slot index and
/// separated from the previous one by a comma, then the closing brackets.
pub fn ordered_steps_bytes(copy_budget_us: u64, steps: &Vec<StepRecord>) -> (bytes: Vec<u8>)
    ensures
        bytes@ == spec_ordered_steps(copy_budget_us, steps@),
{
    let mut out: Vec<u8> = Vec::new();
    push_str(
        &mut out,
        ",\"ordered_steps\":{\"version\":2,\"budget_policy\":\"complete-step-measure-only\",\"start_ms\":1200,\"max_steps\":3,\"max_events\":20,\"copy_budget_us\":",
    );
    push_decimal(&mut out, copy_budget_us);
    push_str(&mut out, ",\"steps\":[");
    let ghost header = out@;
    proof {
        assert(header =~= steps_header(copy_budget_us));
    }
    let mut count: usize = 0;
    let mut index: usize = 0;
    while index < steps.len()
        invariant
            0 <= index <= steps@.len(),
            count == emitted(steps@, index as nat),
            count <= index,
            out@ == header + step_objects(steps@, index as nat),
        decreases steps@.len() - index,
    {
        let step = &steps[index];
        if step.mesh_source {
            let ghost before = out@;
            if count != 0 {
                push_str(&mut out, ",");
            }
            push_str(&mut out, "{\"index\":");
            push_decimal(&mut out, index as u64);
            push_bytes(&mut out, step.members.as_slice());
            proof {
                let obj = step_object(index as nat, steps@[index as int].members@);
                if count != 0 {
                    assert(out@ =~= before + ",".spec_bytes() + obj);
                } else {
                    assert(step_objects(steps@, index as nat) =~= Seq::<u8>::empty()) by {
                        lemma_nothing_emitted(steps@, index as nat);
                    }
                    assert(out@ =~= header + obj);
                }
            }
            count = count + 1;
        }
        index = index + 1;
    }
    push_str(&mut out, "]}");
    out
}

proof fn lemma_nothing_emitted(steps: Seq<StepRecord>, n: nat)
    requires
        n <= steps.len(),
        emitted(steps, n) == 0,
    ensures
        step_objects(steps, n) == Seq::<u8>::empty(),
    decreases n,
{
    if n > 0 {
        lemma_nothing_emitted(steps, (n - 1) as nat);
    }
}

} // verus!
