//! Field baselines shared between cloth resources. The first baseline
//! captured for an address is the canonical one. A later resource that
//! captures the same address must agree on how the field scales, and then
//! takes the canonical baseline, so a field another resource has already
//! scaled is never taken as a new original.
use std::collections::HashMap;
use vstd::prelude::*;

verus! {

/// How a captured dimension scales with the body scale.
#[derive(Clone, Copy, Debug, PartialEq, Eq, Structural)]
pub enum DimensionPower {
    Linear,
    Squared,
    Inverse,
    InverseSquared,
}

/// One captured dimension field: its address, the bits of its original
/// `f32` value, how it scales, and whether an unbounded sentinel is kept.
#[derive(Clone, Copy, Debug, PartialEq, Eq, Structural)]
pub struct FieldBaseline {
    pub address: usize,
    pub baseline_bits: u32,
    pub power: DimensionPower,
    pub preserve_unbounded: bool,
}

/// Two captures of one field agree on how it scales.
pub open spec fn same_kind(a: FieldBaseline, b: FieldBaseline) -> bool {
    a.power == b.power && a.preserve_unbounded == b.preserve_unbounded
}

/// The canonical baselines after `fields` were offered in order: an address
/// that already has a baseline keeps it, and a new address takes the first
/// field offered for it.
pub open spec fn absorbed(canonical: Map<usize, FieldBaseline>, fields: Seq<FieldBaseline>) -> Map<
    usize,
    FieldBaseline,
>
    decreases fields.len(),
{
    if fields.len() == 0 {
        canonical
    } else {
        let rest = absorbed(canonical, fields.drop_last());
        let f = fields.last();
        if rest.contains_key(f.address) {
            rest
        } else {
            rest.insert(f.address, f)
        }
    }
}

/// Every field whose address has a canonical baseline agrees with it on how
/// it scales.
pub open spec fn coherent(canonical: Map<usize, FieldBaseline>, fields: Seq<FieldBaseline>) -> bool {
    forall|k: int|
        0 <= k < fields.len() && canonical.contains_key(#[trigger] fields[k].address) ==> same_kind(
            canonical[fields[k].address],
            fields[k],
        )
}

/// The fields with each canonical baseline taken over.
pub open spec fn adopted(canonical: Map<usize, FieldBaseline>, fields: Seq<FieldBaseline>) -> Seq<
    FieldBaseline,
> {
    Seq::new(
        fields.len(),
        |k: int|
            if canonical.contains_key(fields[k].address) {
                FieldBaseline { baseline_bits: canonical[fields[k].address].baseline_bits, ..fields[k] }
            } else {
                fields[k]
            },
    )
}

/// The field of `fields` at `address` that comes first, if any.
pub open spec fn first_at(fields: Seq<FieldBaseline>, address: usize) -> Option<FieldBaseline>
    decreases fields.len(),
{
    if fields.len() == 0 {
        None
    } else if fields[0].address == address {
        Some(fields[0])
    } else {
        first_at(fields.drop_first(), address)
    }
}

/// Offers `fields` in order as canonical baselines: only addresses without
/// one yet are added.
pub fn absorb_fields(canonical: &mut HashMap<usize, FieldBaseline>, fields: &Vec<FieldBaseline>)
    ensures
        final(canonical)@ == absorbed(old(canonical)@, fields@),
{
    let mut i: usize = 0;
    while i < fields.len()
        invariant
            0 <= i <= fields@.len(),
            canonical@ == absorbed(old(canonical)@, fields@.subrange(0, i as int)),
        decreases fields@.len() - i,
    {
        let f = fields[i];
        proof {
            assert(fields@.subrange(0, i + 1).drop_last() =~= fields@.subrange(0, i as int));
            assert(fields@.subrange(0, i + 1).last() == f);
        }
        if !canonical.contains_key(&f.address) {
            canonical.insert(f.address, f);
        }
        i = i + 1;
    }
    proof {
        assert(fields@.subrange(0, fields@.len() as int) =~= fields@);
    }
}

/// Takes over the canonical baseline of every field that has one, when all
/// of them agree with it on how they scale. Returns whether they agree; when
/// they do not, the fields are left as they were.
pub fn adopt_canonical(canonical: &HashMap<usize, FieldBaseline>, fields: &mut Vec<FieldBaseline>) -> (ok:
    bool)
    ensures
        ok == coherent(canonical@, old(fields)@),
        ok ==> final(fields)@ == adopted(canonical@, old(fields)@),
        !ok ==> final(fields)@ == old(fields)@,
{
    let mut i: usize = 0;
    while i < fields.len()
        invariant
            0 <= i <= fields@.len(),
            forall|k: int|
                0 <= k < i && canonical@.contains_key(#[trigger] fields@[k].address) ==> same_kind(
                    canonical@[fields@[k].address],
                    fields@[k],
                ),
        decreases fields@.len() - i,
    {
        let f = fields[i];
        match canonical.get(&f.address) {
            Some(original) => {
                if original.power != f.power || original.preserve_unbounded != f.preserve_unbounded {
                    proof {
                        assert(canonical@.contains_key(fields@[i as int].address));
                        assert(!same_kind(canonical@[fields@[i as int].address], fields@[i as int]));
                    }
                    return false;
                }
            },
            None => {},
        }
        i = i + 1;
    }
    let ghost before = fields@;
    let mut j: usize = 0;
    while j < fields.len()
        invariant
            0 <= j <= fields@.len(),
            fields@.len() == before.len(),
            forall|k: int| 0 <= k < j ==> #[trigger] fields@[k] == adopted(canonical@, before)[k],
            forall|k: int| j <= k < fields@.len() ==> #[trigger] fields@[k] == before[k],
        decreases fields@.len() - j,
    {
        let f = fields[j];
        match canonical.get(&f.address) {
            Some(original) => {
                let bits = original.baseline_bits;
                fields.set(
                    j,
                    FieldBaseline {
                        address: f.address,
                        baseline_bits: bits,
                        power: f.power,
                        preserve_unbounded: f.preserve_unbounded,
                    },
                );
            },
            None => {},
        }
        j = j + 1;
    }
    proof {
        assert(fields@ =~= adopted(canonical@, before));
    }
    true
}

/// Shares the fields of a newly captured resource with the resources already
/// prepared: when the fields agree with every canonical baseline on how they
/// scale, they take those baselines and their new addresses become
/// canonical. Returns whether they agreed; when they do not, nothing changes.
pub fn share_field_baselines(
    canonical: &mut HashMap<usize, FieldBaseline>,
    fields: &mut Vec<FieldBaseline>,
) -> (ok: bool)
    ensures
        ok == coherent(old(canonical)@, old(fields)@),
        ok ==> final(fields)@ == adopted(old(canonical)@, old(fields)@),
        ok ==> final(canonical)@ == absorbed(old(canonical)@, final(fields)@),
        !ok ==> final(fields)@ == old(fields)@ && final(canonical)@ == old(canonical)@,
{
    let ok = adopt_canonical(canonical, fields);
    if ok {
        absorb_fields(canonical, fields);
    }
    ok
}

/// An address keeps its canonical baseline, whatever is offered later.
pub proof fn canonical_baselines_are_kept(
    canonical: Map<usize, FieldBaseline>,
    fields: Seq<FieldBaseline>,
    address: usize,
)
    requires
        canonical.contains_key(address),
    ensures
        absorbed(canonical, fields).contains_key(address),
        absorbed(canonical, fields)[address] == canonical[address],
    decreases fields.len(),
{
    if fields.len() > 0 {
        canonical_baselines_are_kept(canonical, fields.drop_last(), address);
    }
}

/// After offering `fields`, an address has a canonical baseline exactly
/// when it had one or some field was offered for it; a new one is the first
/// field offered for it.
pub proof fn absorbed_takes_first_offer(
    canonical: Map<usize, FieldBaseline>,
    fields: Seq<FieldBaseline>,
    address: usize,
)
    ensures
        absorbed(canonical, fields).contains_key(address) <==> canonical.contains_key(address)
            || first_at(fields, address) is Some,
        !canonical.contains_key(address) ==> (first_at(fields, address) matches Some(f)
            ==> absorbed(canonical, fields)[address] == f),
    decreases fields.len(),
{
    if fields.len() > 0 {
        absorbed_takes_first_offer(canonical, fields.drop_last(), address);
        lemma_first_at_push(fields.drop_last(), fields.last(), address);
        assert(fields.drop_last().push(fields.last()) =~= fields);
    }
}

proof fn lemma_first_at_push(fields: Seq<FieldBaseline>, f: FieldBaseline, address: usize)
    ensures
        first_at(fields.push(f), address) == (match first_at(fields, address) {
            Some(g) => Some(g),
            None => if f.address == address {
                Some(f)
            } else {
                None
            },
        }),
    decreases fields.len(),
{
    let pushed = fields.push(f);
    if fields.len() > 0 {
        lemma_first_at_push(fields.drop_first(), f, address);
        assert(pushed.drop_first() =~= fields.drop_first().push(f));
        assert(pushed[0] == fields[0]);
        if fields[0].address != address {
            assert(first_at(pushed, address) == first_at(pushed.drop_first(), address));
            assert(first_at(fields, address) == first_at(fields.drop_first(), address));
        }
    } else {
        assert(pushed[0] == f);
        assert(first_at(pushed.drop_first(), address) is None);
        assert(first_at(fields, address) is None);
    }
}

/// After a resource shared its fields, each of them with an address of its
/// own reads the canonical baseline of that address, and a field another
/// resource captured first keeps the other resource's original.
pub proof fn shared_fields_read_the_canonical_baseline(
    canonical: Map<usize, FieldBaseline>,
    fields: Seq<FieldBaseline>,
    k: int,
)
    requires
        0 <= k < fields.len(),
        forall|a: int, b: int|
            0 <= a < b < fields.len() ==> #[trigger] fields[a].address != #[trigger] fields[b].address,
        coherent(canonical, fields),
    ensures
        absorbed(canonical, adopted(canonical, fields)).contains_key(fields[k].address),
        absorbed(canonical, adopted(canonical, fields))[fields[k].address].baseline_bits == adopted(
            canonical,
            fields,
        )[k].baseline_bits,
        canonical.contains_key(fields[k].address) ==> adopted(canonical, fields)[k].baseline_bits
            == canonical[fields[k].address].baseline_bits,
{
    let shared = adopted(canonical, fields);
    let address = fields[k].address;
    if canonical.contains_key(address) {
        canonical_baselines_are_kept(canonical, shared, address);
    } else {
        absorbed_takes_first_offer(canonical, shared, address);
        assert forall|a: int, b: int| 0 <= a < b < shared.len() implies #[trigger] shared[a].address
            != #[trigger] shared[b].address by {
            assert(shared[a].address == fields[a].address && shared[b].address == fields[b].address);
        }
        lemma_first_at_distinct(shared, k);
    }
}

proof fn lemma_first_at_distinct(fields: Seq<FieldBaseline>, k: int)
    requires
        0 <= k < fields.len(),
        forall|a: int, b: int|
            0 <= a < b < fields.len() ==> #[trigger] fields[a].address != #[trigger] fields[b].address,
    ensures
        first_at(fields, fields[k].address) == Some(fields[k]),
    decreases fields.len(),
{
    if k > 0 {
        assert(fields[0].address != fields[k].address);
        let rest = fields.drop_first();
        assert(rest[k - 1] == fields[k]);
        assert forall|a: int, b: int| 0 <= a < b < rest.len() implies #[trigger] rest[a].address
            != #[trigger] rest[b].address by {
            assert(rest[a] == fields[a + 1] && rest[b] == fields[b + 1]);
        }
        lemma_first_at_distinct(rest, k - 1);
    }
}

} // verus!
