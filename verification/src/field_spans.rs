//! Writable spans of captured dimension fields. Each captured four-byte field
//! lies in the used part of a span whose region was reported writable, so a
//! transition checks a few spans instead of every field before it writes.
//!
//! Regions and permissions come from callers' queries; the contracts hold of
//! whatever those answer.
use vstd::prelude::*;

verus! {

/// The bytes of one captured field.
pub const FIELD_BYTES: usize = 4;

/// A writable region holding captured fields, and the part they use.
#[derive(Clone, Copy, Debug, PartialEq, Eq, Structural)]
pub struct FieldSpan {
    pub region_start: usize,
    pub region_end: usize,
    pub used_start: usize,
    pub used_end: usize,
}

/// The used part of a span is nonempty and lies within its region.
pub open spec fn span_wf(s: FieldSpan) -> bool {
    s.region_start <= s.used_start < s.used_end <= s.region_end
}

/// The region of a span holds the field at `address`.
pub open spec fn region_holds(s: FieldSpan, address: usize) -> bool {
    s.region_start <= address && address + FIELD_BYTES <= s.region_end
}

/// The used part of a span holds the field at `address`.
pub open spec fn uses_field(s: FieldSpan, address: usize) -> bool {
    s.used_start <= address && address + FIELD_BYTES <= s.used_end
}

/// Every span is well formed.
pub open spec fn spans_wf(spans: Seq<FieldSpan>) -> bool {
    forall|k: int| 0 <= k < spans.len() ==> span_wf(#[trigger] spans[k])
}

/// Some span uses the field at `address`.
pub open spec fn field_covered(spans: Seq<FieldSpan>, address: usize) -> bool {
    exists|k: int| 0 <= k < spans.len() && uses_field(#[trigger] spans[k], address)
}

/// `s` extended to use the field at `address`.
pub open spec fn extended(s: FieldSpan, address: usize) -> FieldSpan {
    FieldSpan {
        used_start: if address < s.used_start {
            address
        } else {
            s.used_start
        },
        used_end: if address + FIELD_BYTES > s.used_end {
            (address + FIELD_BYTES) as usize
        } else {
            s.used_end
        },
        ..s
    }
}

/// The first (or, with `last`, the last) span whose region holds the field.
pub open spec fn is_holding_span(spans: Seq<FieldSpan>, address: usize, last: bool, k: int) -> bool {
    &&& 0 <= k < spans.len()
    &&& region_holds(spans[k], address)
    &&& if last {
        forall|j: int| k < j < spans.len() ==> !region_holds(#[trigger] spans[j], address)
    } else {
        forall|j: int| 0 <= j < k ==> !region_holds(#[trigger] spans[j], address)
    }
}

fn find_holding_span(spans: &Vec<FieldSpan>, address: usize, last: bool) -> (r: Option<usize>)
    requires
        address + FIELD_BYTES <= usize::MAX,
    ensures
        r matches Some(k) ==> is_holding_span(spans@, address, last, k as int),
        r is None ==> forall|j: int| 0 <= j < spans@.len() ==> !region_holds(#[trigger] spans@[j], address),
{
    let end = address + FIELD_BYTES;
    let mut found: Option<usize> = None;
    let mut i: usize = 0;
    while i < spans.len()
        invariant
            i <= spans@.len(),
            end == address + FIELD_BYTES,
            found matches Some(k) ==> k < i && region_holds(spans@[k as int], address) && if last {
                forall|j: int| k < j < i ==> !region_holds(#[trigger] spans@[j], address)
            } else {
                forall|j: int| 0 <= j < k ==> !region_holds(#[trigger] spans@[j], address)
            },
            found is None ==> forall|j: int| 0 <= j < i ==> !region_holds(#[trigger] spans@[j], address),
        decreases spans@.len() - i,
    {
        let s = spans[i];
        if address >= s.region_start && end <= s.region_end {
            if last || found.is_none() {
                found = Some(i);
            }
        }
        i = i + 1;
    }
    found
}

/// What a region query answers for each address.
pub type RegionImage = spec_fn(usize) -> Option<(usize, usize)>;

/// What a writability query answers for each start and length.
pub type WritableImage = spec_fn(usize, usize) -> bool;

/// The region query answers every address as `g` does.
pub open spec fn regions_as<F: Fn(usize) -> Option<(usize, usize)>>(region: F, g: RegionImage) -> bool {
    forall|a: usize, r: Option<(usize, usize)>| #[trigger] region.ensures((a,), r) ==> r == g(a)
}

/// The writability query answers every range as `w` does.
pub open spec fn writes_as<W: Fn(usize, usize) -> bool>(writable: W, w: WritableImage) -> bool {
    forall|a: usize, n: usize, r: bool| #[trigger] writable.ensures((a, n), r) ==> r == w(a, n)
}

/// The used part of span `k` is writable in `w`.
pub open spec fn span_writable_in(w: WritableImage, spans: Seq<FieldSpan>, k: int) -> bool {
    w(spans[k].used_start, (spans[k].used_end - spans[k].used_start) as usize)
}

/// The used part of every span is writable in `w`.
pub open spec fn all_writable_in(w: WritableImage, spans: Seq<FieldSpan>) -> bool {
    forall|k: int| 0 <= k < spans.len() ==> #[trigger] span_writable_in(w, spans, k)
}

/// The spans after the field at `address` is placed, for a region query
/// answering as `g`: the span holding it (the first, or the last with
/// `last`) is extended; with none, a span for the region `g` reports is
/// added when that region holds the field. `None` when the field's end
/// overflows or no region holding it is reported.
pub open spec fn spec_place(spans: Seq<FieldSpan>, address: usize, last: bool, g: RegionImage) -> Option<
    Seq<FieldSpan>,
> {
    if address + FIELD_BYTES > usize::MAX {
        None
    } else if exists|k: int| is_holding_span(spans, address, last, k) {
        let k = choose|k: int| is_holding_span(spans, address, last, k);
        Some(spans.update(k, extended(spans[k], address)))
    } else {
        match g(address) {
            Some((start, end)) => if start <= address && address + FIELD_BYTES <= end {
                Some(
                    spans.push(
                        FieldSpan {
                            region_start: start,
                            region_end: end,
                            used_start: address,
                            used_end: (address + FIELD_BYTES) as usize,
                        },
                    ),
                )
            } else {
                None
            },
            None => None,
        }
    }
}

/// Only one span is the first (or the last) to hold a field.
proof fn lemma_holding_unique(spans: Seq<FieldSpan>, address: usize, last: bool, k: int)
    requires
        is_holding_span(spans, address, last, k),
    ensures
        (choose|j: int| is_holding_span(spans, address, last, j)) == k,
{
    let j = choose|j: int| is_holding_span(spans, address, last, j);
    assert(is_holding_span(spans, address, last, j));
    if j < k {
        if last {
            assert(!region_holds(spans[k], address));
        } else {
            assert(!region_holds(spans[j], address));
        }
    } else if j > k {
        if last {
            assert(!region_holds(spans[j], address));
        } else {
            assert(!region_holds(spans[k], address));
        }
    }
}

/// Any span holding a field gives a first and a last one holding it.
proof fn lemma_holding_exists(spans: Seq<FieldSpan>, address: usize, last: bool, k: int)
    requires
        0 <= k < spans.len(),
        region_holds(spans[k], address),
    ensures
        exists|j: int| is_holding_span(spans, address, last, j),
    decreases if last {
        spans.len() - k
    } else {
        k + 1
    },
{
    if last {
        if exists|j: int| k < j < spans.len() && region_holds(#[trigger] spans[j], address) {
            let j = choose|j: int| k < j < spans.len() && region_holds(#[trigger] spans[j], address);
            lemma_holding_exists(spans, address, last, j);
        } else {
            assert(is_holding_span(spans, address, last, k));
        }
    } else {
        if exists|j: int| 0 <= j < k && region_holds(#[trigger] spans[j], address) {
            let j = choose|j: int| 0 <= j < k && region_holds(#[trigger] spans[j], address);
            lemma_holding_exists(spans, address, last, j);
        } else {
            assert(is_holding_span(spans, address, last, k));
        }
    }
}

/// Records the field at `address` in the span whose region holds it (the
/// last such span, or the first with `last` false) by extending its used
/// part; with no such span, asks `region` for the writable region of the
/// field and adds a span for it. Refused (nothing changed) when the field's
/// end overflows or no region holding the field is reported.
pub fn place_field(
    spans: &mut Vec<FieldSpan>,
    address: usize,
    last: bool,
    region: &impl Fn(usize) -> Option<(usize, usize)>,
) -> (placed: bool)
    requires
        spans_wf(old(spans)@),
        forall|a: usize| region.requires((a,)),
    ensures
        spans_wf(final(spans)@),
        !placed ==> final(spans)@ == old(spans)@,
        placed ==> field_covered(final(spans)@, address),
        placed ==> final(spans)@.len() >= old(spans)@.len(),
        placed ==> forall|k: int, a: usize|
            0 <= k < old(spans)@.len() && uses_field(old(spans)@[k], a) ==> #[trigger] uses_field(
                final(spans)@[k],
                a,
            ),
        address + FIELD_BYTES <= usize::MAX && (exists|k: int|
            0 <= k < old(spans)@.len() && region_holds(#[trigger] old(spans)@[k], address))
            ==> placed && exists|k: int|
            is_holding_span(old(spans)@, address, last, k) && final(spans)@ == old(spans)@.update(
                k,
                extended(old(spans)@[k], address),
            ),
        forall|g: RegionImage|
            regions_as(*region, g) ==> spec_place(old(spans)@, address, last, g) == if placed {
                Some(final(spans)@)
            } else {
                None
            },
        placed && final(spans)@.len() > old(spans)@.len() ==> exists|start: usize, end: usize|
            region.ensures((address,), Some((start, end))) && final(spans)@ == old(spans)@.push(
                FieldSpan {
                    region_start: start,
                    region_end: end,
                    used_start: address,
                    used_end: (address + FIELD_BYTES) as usize,
                },
            ),
{
    let field_end = match address.checked_add(FIELD_BYTES) {
        Some(end) => end,
        None => return false,
    };
    match find_holding_span(spans, address, last) {
        Some(k) => {
            let s = spans[k];
            let updated = FieldSpan {
                used_start: if address < s.used_start {
                    address
                } else {
                    s.used_start
                },
                used_end: if field_end > s.used_end {
                    field_end
                } else {
                    s.used_end
                },
                ..s
            };
            let ghost before = spans@;
            spans.set(k, updated);
            proof {
                lemma_holding_unique(before, address, last, k as int);
                assert(spans@ == before.update(k as int, extended(before[k as int], address)));
                assert(uses_field(spans@[k as int], address));
                assert forall|j: int, a: usize|
                    0 <= j < before.len() && uses_field(before[j], a) implies #[trigger] uses_field(
                    spans@[j],
                    a,
                ) by {}
            }
            true
        },
        None => {
            proof {
                assert forall|j: int| !is_holding_span(spans@, address, last, j) by {
                    if 0 <= j < spans@.len() {
                        assert(!region_holds(spans@[j], address));
                    }
                }
            }
            match region(address) {
                Some((start, end)) => {
                    if start <= address && field_end <= end {
                        let ghost before = spans@;
                        spans.push(
                            FieldSpan {
                                region_start: start,
                                region_end: end,
                                used_start: address,
                                used_end: field_end,
                            },
                        );
                        proof {
                            assert(uses_field(spans@[before.len() as int], address));
                            assert forall|j: int, a: usize|
                                0 <= j < before.len() && uses_field(before[j], a) implies #[trigger] uses_field(
                                spans@[j],
                                a,
                            ) by {
                                assert(spans@[j] == before[j]);
                            }
                        }
                        true
                    } else {
                        false
                    }
                },
                None => false,
            }
        },
    }
}

/// The used part of every span is reported writable.
pub open spec fn spans_writable<W: Fn(usize, usize) -> bool>(writable: W, spans: Seq<FieldSpan>) -> bool {
    forall|k: int|
        0 <= k < spans.len() ==> #[trigger] writable.ensures(
            (spans[k].used_start, (spans[k].used_end - spans[k].used_start) as usize),
            true,
        )
}

/// Whether every span's used part is reported writable.
pub fn all_spans_writable(spans: &Vec<FieldSpan>, writable: &impl Fn(usize, usize) -> bool) -> (r:
    bool)
    requires
        spans_wf(spans@),
        forall|a: usize, n: usize| writable.requires((a, n)),
    ensures
        r ==> spans_writable(*writable, spans@),
        !r ==> exists|k: int|
            0 <= k < spans@.len() && #[trigger] writable.ensures(
                (spans@[k].used_start, (spans@[k].used_end - spans@[k].used_start) as usize),
                false,
            ),
        forall|w: WritableImage| writes_as(*writable, w) ==> r == all_writable_in(w, spans@),
{
    let mut i: usize = 0;
    while i < spans.len()
        invariant
            i <= spans@.len(),
            spans_wf(spans@),
            forall|a: usize, n: usize| writable.requires((a, n)),
            forall|k: int|
                0 <= k < i ==> #[trigger] writable.ensures(
                    (spans@[k].used_start, (spans@[k].used_end - spans@[k].used_start) as usize),
                    true,
                ),
        decreases spans@.len() - i,
    {
        let s = spans[i];
        assert(span_wf(spans@[i as int]));
        if !writable(s.used_start, s.used_end - s.used_start) {
            proof {
                assert forall|w: WritableImage| writes_as(*writable, w) implies !all_writable_in(
                    w,
                    spans@,
                ) by {
                    assert(!span_writable_in(w, spans@, i as int));
                }
            }
            return false;
        }
        i = i + 1;
    }
    proof {
        assert forall|w: WritableImage| writes_as(*writable, w) implies all_writable_in(w, spans@) by {
            assert forall|k: int| 0 <= k < spans@.len() implies #[trigger] span_writable_in(
                w,
                spans@,
                k,
            ) by {
                assert(writable.ensures(
                    (spans@[k].used_start, (spans@[k].used_end - spans@[k].used_start) as usize),
                    true,
                ));
            }
        }
    }
    true
}

/// The spans rebuilt from the first `n` fields, each placed in the first
/// span holding it, for a region query answering as `g`; `None` when a
/// field cannot be placed.
pub open spec fn spec_rebuild(fields: Seq<usize>, g: RegionImage, n: nat) -> Option<Seq<FieldSpan>>
    decreases n,
{
    if n == 0 {
        Some(Seq::empty())
    } else {
        match spec_rebuild(fields, g, (n - 1) as nat) {
            None => None,
            Some(spans) => spec_place(spans, fields[n - 1], false, g),
        }
    }
}

/// The spans a refresh leaves, or `None` when the fields may not be
/// written: the current spans when all are writable, else the spans rebuilt
/// from the fields when they can be and all are writable.
pub open spec fn spec_refresh(
    spans: Seq<FieldSpan>,
    fields: Seq<usize>,
    g: RegionImage,
    w: WritableImage,
) -> Option<Seq<FieldSpan>> {
    if all_writable_in(w, spans) {
        Some(spans)
    } else {
        match spec_rebuild(fields, g, fields.len()) {
            None => None,
            Some(rebuilt) => if all_writable_in(w, rebuilt) {
                Some(rebuilt)
            } else {
                None
            },
        }
    }
}

proof fn lemma_rebuild_none(fields: Seq<usize>, g: RegionImage, a: nat, b: nat)
    requires
        a <= b,
        spec_rebuild(fields, g, a) is None,
    ensures
        spec_rebuild(fields, g, b) is None,
    decreases b - a,
{
    if a < b {
        lemma_rebuild_none(fields, g, a, (b - 1) as nat);
    }
}

/// Makes sure every captured field lies in a span reported writable. When
/// the current spans are all writable they stay; otherwise the spans are
/// rebuilt from the fields by fresh region queries, and the rebuilt spans
/// replace them only when all of them are writable. Returns whether the
/// fields may be written.
pub fn refresh_field_spans(
    spans: &mut Vec<FieldSpan>,
    fields: &Vec<usize>,
    region: &impl Fn(usize) -> Option<(usize, usize)>,
    writable: &impl Fn(usize, usize) -> bool,
) -> (ok: bool)
    requires
        spans_wf(old(spans)@),
        forall|a: usize| region.requires((a,)),
        forall|a: usize, n: usize| writable.requires((a, n)),
    ensures
        spans_wf(final(spans)@),
        ok ==> spans_writable(*writable, final(spans)@),
        !ok ==> final(spans)@ == old(spans)@,
        ok && final(spans)@ != old(spans)@ ==> forall|i: int|
            0 <= i < fields@.len() ==> field_covered(final(spans)@, #[trigger] fields@[i]),
        forall|g: RegionImage, w: WritableImage|
            regions_as(*region, g) && writes_as(*writable, w) ==> spec_refresh(
                old(spans)@,
                fields@,
                g,
                w,
            ) == if ok {
                Some(final(spans)@)
            } else {
                None
            },
{
    if all_spans_writable(spans, writable) {
        return true;
    }
    let mut rebuilt: Vec<FieldSpan> = Vec::new();
    let mut i: usize = 0;
    while i < fields.len()
        invariant
            i <= fields@.len(),
            spans@ == old(spans)@,
            spans_wf(old(spans)@),
            spans_wf(rebuilt@),
            forall|a: usize| region.requires((a,)),
            forall|j: int| 0 <= j < i ==> field_covered(rebuilt@, #[trigger] fields@[j]),
            forall|w: WritableImage| writes_as(*writable, w) ==> !all_writable_in(w, old(spans)@),
            forall|g: RegionImage| regions_as(*region, g) ==> spec_rebuild(fields@, g, i as nat) == Some(
                rebuilt@,
            ),
        decreases fields@.len() - i,
    {
        let ghost before = rebuilt@;
        if !place_field(&mut rebuilt, fields[i], false, region) {
            proof {
                assert forall|g: RegionImage| regions_as(*region, g) implies spec_rebuild(
                    fields@,
                    g,
                    fields@.len(),
                ) is None by {
                    assert(spec_rebuild(fields@, g, i as nat) == Some(before));
                    assert(spec_rebuild(fields@, g, (i + 1) as nat) is None);
                    lemma_rebuild_none(fields@, g, (i + 1) as nat, fields@.len());
                }
            }
            return false;
        }
        proof {
            assert forall|g: RegionImage| regions_as(*region, g) implies spec_rebuild(
                fields@,
                g,
                (i + 1) as nat,
            ) == Some(rebuilt@) by {
                assert(spec_rebuild(fields@, g, i as nat) == Some(before));
            }
        }
        proof {
            assert forall|j: int| 0 <= j < i + 1 implies field_covered(rebuilt@, #[trigger] fields@[j]) by {
                if j < i {
                    assert(field_covered(before, fields@[j]));
                    let k = choose|k: int| 0 <= k < before.len() && uses_field(#[trigger] before[k], fields@[j]);
                    assert(uses_field(rebuilt@[k], fields@[j]));
                }
            }
        }
        i = i + 1;
    }
    if !all_spans_writable(&rebuilt, writable) {
        return false;
    }
    *spans = rebuilt;
    true
}

/// Every field placed stays covered by later placements: spans only grow.
pub proof fn placed_fields_stay_covered(before: Seq<FieldSpan>, after: Seq<FieldSpan>, address: usize)
    requires
        field_covered(before, address),
        after.len() >= before.len(),
        forall|k: int, a: usize|
            0 <= k < before.len() && uses_field(before[k], a) ==> #[trigger] uses_field(after[k], a),
    ensures
        field_covered(after, address),
{
    let k = choose|k: int| 0 <= k < before.len() && uses_field(#[trigger] before[k], address);
    assert(uses_field(after[k], address));
}

} // verus!
