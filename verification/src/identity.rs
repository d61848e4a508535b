//! Layout identity of captured dimension objects: the root vtables, the
//! pointers and the bounded native arrays a capture went through. A capture
//! is used again only while all of them still read as they did.
//!
//! Memory is reached through readers: a word reader, a reader of 32-bit
//! counts, and a query of whether a byte range may be read. Every contract
//! states what holds for readers that answer as fixed images.
use crate::owner_scope::{reads_anywhere, reads_as, Image};
use vstd::prelude::*;

verus! {

/// What a 32-bit count read at each address answers.
pub type CountImage = spec_fn(usize) -> Option<i32>;

/// Which byte ranges, given by start and length, may be read.
pub type Readable = spec_fn(usize, usize) -> bool;

/// The count reader answers every read as the image `m` does.
pub open spec fn counts_as<F: Fn(usize) -> Option<i32>>(read: F, m: CountImage) -> bool {
    forall|a: usize, r: Option<i32>| #[trigger] read.ensures((a,), r) ==> r == m(a)
}

/// The count reader may be asked for any address.
pub open spec fn counts_anywhere<F: Fn(usize) -> Option<i32>>(read: F) -> bool {
    forall|a: usize| #[trigger] read.requires((a,))
}

/// The range query answers every range as `readable` does.
pub open spec fn readable_as<F: Fn(usize, usize) -> bool>(query: F, readable: Readable) -> bool {
    forall|a: usize, n: usize, r: bool| #[trigger] query.ensures((a, n), r) ==> r == readable(a, n)
}

/// The range query may be asked for any range.
pub open spec fn queries_anywhere<F: Fn(usize, usize) -> bool>(query: F) -> bool {
    forall|a: usize, n: usize| #[trigger] query.requires((a, n))
}

/// The three readers may be asked anything.
pub open spec fn readers_total<
    R: Fn(usize) -> Option<usize>,
    C: Fn(usize) -> Option<i32>,
    Q: Fn(usize, usize) -> bool,
>(read: R, count: C, query: Q) -> bool {
    reads_anywhere(read) && counts_anywhere(count) && queries_anywhere(query)
}

/// The three readers answer as the images `m`, `c` and `r`.
pub open spec fn readers_as<
    R: Fn(usize) -> Option<usize>,
    C: Fn(usize) -> Option<i32>,
    Q: Fn(usize, usize) -> bool,
>(read: R, count: C, query: Q, m: Image, c: CountImage, r: Readable) -> bool {
    reads_as(read, m) && counts_as(count, c) && readable_as(query, r)
}

/// The span of a native array of `object`: its begin pointer and count, when
/// the count is nonnegative and at most `maximum`, its bytes fit the
/// address space, and a nonempty array has a readable, non-null begin.
pub open spec fn spec_array_span(
    object: usize,
    pointer_offset: usize,
    count_offset: usize,
    stride: usize,
    maximum: usize,
    m: Image,
    c: CountImage,
    r: Readable,
) -> Option<(usize, usize)> {
    if object == 0 || stride == 0 || object + count_offset > usize::MAX {
        None
    } else {
        match c((object + count_offset) as usize) {
            None => None,
            Some(raw) => if raw < 0 || raw > maximum || object + pointer_offset > usize::MAX {
                None
            } else {
                match m((object + pointer_offset) as usize) {
                    None => None,
                    Some(begin) => if raw * stride > usize::MAX {
                        None
                    } else if raw > 0 && (begin == 0 || !r(begin, (raw * stride) as usize)) {
                        None
                    } else {
                        Some((begin, raw as usize))
                    },
                }
            },
        }
    }
}

/// Reads the span of a native array of `object` through its count and
/// begin fields, with the bounds `spec_array_span` states.
pub fn array_span(
    object: usize,
    pointer_offset: usize,
    count_offset: usize,
    stride: usize,
    maximum: usize,
    read: &impl Fn(usize) -> Option<usize>,
    count: &impl Fn(usize) -> Option<i32>,
    query: &impl Fn(usize, usize) -> bool,
) -> (span: Option<(usize, usize)>)
    requires
        readers_total(*read, *count, *query),
    ensures
        span matches Some(s) ==> s.1 <= maximum,
        forall|m: Image, c: CountImage, r: Readable|
            readers_as(*read, *count, *query, m, c, r) ==> span == spec_array_span(
                object,
                pointer_offset,
                count_offset,
                stride,
                maximum,
                m,
                c,
                r,
            ),
{
    if object == 0 || stride == 0 {
        return None;
    }
    let count_address = match object.checked_add(count_offset) {
        Some(a) => a,
        None => return None,
    };
    let raw = match count(count_address) {
        Some(raw) => raw,
        None => return None,
    };
    if raw < 0 {
        return None;
    }
    let n = raw as usize;
    if n > maximum {
        return None;
    }
    let pointer_address = match object.checked_add(pointer_offset) {
        Some(a) => a,
        None => return None,
    };
    let begin = match read(pointer_address) {
        Some(begin) => begin,
        None => return None,
    };
    let bytes = match n.checked_mul(stride) {
        Some(bytes) => bytes,
        None => return None,
    };
    if n > 0 && (begin == 0 || !query(begin, bytes)) {
        return None;
    }
    Some((begin, n))
}

/// A captured root: its address and the vtable it had.
#[derive(Clone, Copy, Debug, PartialEq, Eq, Structural)]
pub struct RootIdentity {
    pub address: usize,
    pub vtable: usize,
}

/// A captured pointer field: its address and the value it had.
#[derive(Clone, Copy, Debug, PartialEq, Eq, Structural)]
pub struct PointerIdentity {
    pub address: usize,
    pub value: usize,
}

/// A captured native array: how it was read and the span it had.
#[derive(Clone, Copy, Debug, PartialEq, Eq, Structural)]
pub struct ArrayIdentity {
    pub object: usize,
    pub pointer_offset: usize,
    pub count_offset: usize,
    pub stride: usize,
    pub maximum: usize,
    pub begin: usize,
    pub count: usize,
}

/// Everything a capture went through.
#[derive(Debug)]
pub struct ObjectIdentity {
    pub roots: Vec<RootIdentity>,
    pub pointers: Vec<PointerIdentity>,
    pub arrays: Vec<ArrayIdentity>,
}

/// A captured array still has the span it had.
pub open spec fn array_unchanged(a: ArrayIdentity, m: Image, c: CountImage, r: Readable) -> bool {
    spec_array_span(a.object, a.pointer_offset, a.count_offset, a.stride, a.maximum, m, c, r)
        == Some((a.begin, a.count))
}

/// Every root, pointer and array of a capture still reads as it did.
pub open spec fn spec_identity_matches(
    roots: Seq<RootIdentity>,
    pointers: Seq<PointerIdentity>,
    arrays: Seq<ArrayIdentity>,
    m: Image,
    c: CountImage,
    r: Readable,
) -> bool {
    &&& forall|k: int| 0 <= k < roots.len() ==> m(#[trigger] roots[k].address) == Some(roots[k].vtable)
    &&& forall|k: int|
        0 <= k < pointers.len() ==> m(#[trigger] pointers[k].address) == Some(pointers[k].value)
    &&& forall|k: int| 0 <= k < arrays.len() ==> array_unchanged(#[trigger] arrays[k], m, c, r)
}

impl ObjectIdentity {
    /// Nothing captured yet.
    pub fn new() -> (id: ObjectIdentity)
        ensures
            id.roots@.len() == 0,
            id.pointers@.len() == 0,
            id.arrays@.len() == 0,
    {
        ObjectIdentity { roots: Vec::new(), pointers: Vec::new(), arrays: Vec::new() }
    }

    /// Reads a pointer field and records the value it had.
    pub fn capture_pointer(
        &mut self,
        address: usize,
        read: &impl Fn(usize) -> Option<usize>,
    ) -> (value: Option<usize>)
        requires
            reads_anywhere(*read),
        ensures
            final(self).roots == old(self).roots,
            final(self).arrays == old(self).arrays,
            forall|m: Image|
                reads_as(*read, m) ==> value == m(address) && final(self).pointers@ == match m(address) {
                    Some(v) => old(self).pointers@.push(PointerIdentity { address, value: v }),
                    None => old(self).pointers@,
                },
    {
        let value = read(address);
        match value {
            Some(v) => {
                self.pointers.push(PointerIdentity { address, value: v });
            },
            None => {},
        }
        value
    }

    /// Reads a native array's span and records it.
    pub fn capture_array(
        &mut self,
        object: usize,
        pointer_offset: usize,
        count_offset: usize,
        stride: usize,
        maximum: usize,
        read: &impl Fn(usize) -> Option<usize>,
        count: &impl Fn(usize) -> Option<i32>,
        query: &impl Fn(usize, usize) -> bool,
    ) -> (span: Option<(usize, usize)>)
        requires
            readers_total(*read, *count, *query),
        ensures
            final(self).roots == old(self).roots,
            final(self).pointers == old(self).pointers,
            forall|m: Image, c: CountImage, r: Readable|
                readers_as(*read, *count, *query, m, c, r) ==> {
                    &&& span == spec_array_span(
                        object,
                        pointer_offset,
                        count_offset,
                        stride,
                        maximum,
                        m,
                        c,
                        r,
                    )
                    &&& final(self).arrays@ == match span {
                        Some((begin, n)) => old(self).arrays@.push(
                            ArrayIdentity {
                                object,
                                pointer_offset,
                                count_offset,
                                stride,
                                maximum,
                                begin,
                                count: n,
                            },
                        ),
                        None => old(self).arrays@,
                    }
                },
    {
        let span = array_span(object, pointer_offset, count_offset, stride, maximum, read, count, query);
        match span {
            Some((begin, n)) => {
                self.arrays.push(
                    ArrayIdentity { object, pointer_offset, count_offset, stride, maximum, begin, count: n },
                );
            },
            None => {},
        }
        span
    }

    /// Whether every root, pointer and array of the capture still reads as
    /// it did.
    pub fn identity_matches(
        &self,
        read: &impl Fn(usize) -> Option<usize>,
        count: &impl Fn(usize) -> Option<i32>,
        query: &impl Fn(usize, usize) -> bool,
    ) -> (r: bool)
        requires
            readers_total(*read, *count, *query),
        ensures
            forall|m: Image, c: CountImage, rd: Readable|
                readers_as(*read, *count, *query, m, c, rd) ==> r == spec_identity_matches(
                    self.roots@,
                    self.pointers@,
                    self.arrays@,
                    m,
                    c,
                    rd,
                ),
    {
        let mut i: usize = 0;
        while i < self.roots.len()
            invariant
                0 <= i <= self.roots@.len(),
                readers_total(*read, *count, *query),
                forall|m: Image|
                    reads_as(*read, m) ==> forall|k: int|
                        0 <= k < i ==> m(#[trigger] self.roots@[k].address) == Some(
                            self.roots@[k].vtable,
                        ),
            decreases self.roots@.len() - i,
        {
            let root = self.roots[i];
            let v = read(root.address);
            let same = match v {
                Some(x) => x == root.vtable,
                None => false,
            };
            if !same {
                return false;
            }
            i = i + 1;
        }
        let mut j: usize = 0;
        while j < self.pointers.len()
            invariant
                0 <= j <= self.pointers@.len(),
                readers_total(*read, *count, *query),
                forall|m: Image|
                    reads_as(*read, m) ==> forall|k: int|
                        0 <= k < self.roots@.len() ==> m(#[trigger] self.roots@[k].address) == Some(
                            self.roots@[k].vtable,
                        ),
                forall|m: Image|
                    reads_as(*read, m) ==> forall|k: int|
                        0 <= k < j ==> m(#[trigger] self.pointers@[k].address) == Some(
                            self.pointers@[k].value,
                        ),
            decreases self.pointers@.len() - j,
        {
            let pointer = self.pointers[j];
            let v = read(pointer.address);
            let same = match v {
                Some(x) => x == pointer.value,
                None => false,
            };
            if !same {
                return false;
            }
            j = j + 1;
        }
        let mut k: usize = 0;
        while k < self.arrays.len()
            invariant
                0 <= k <= self.arrays@.len(),
                readers_total(*read, *count, *query),
                forall|m: Image|
                    reads_as(*read, m) ==> forall|q: int|
                        0 <= q < self.roots@.len() ==> m(#[trigger] self.roots@[q].address) == Some(
                            self.roots@[q].vtable,
                        ),
                forall|m: Image|
                    reads_as(*read, m) ==> forall|q: int|
                        0 <= q < self.pointers@.len() ==> m(#[trigger] self.pointers@[q].address)
                            == Some(self.pointers@[q].value),
                forall|m: Image, c: CountImage, rd: Readable|
                    readers_as(*read, *count, *query, m, c, rd) ==> forall|q: int|
                        0 <= q < k ==> array_unchanged(#[trigger] self.arrays@[q], m, c, rd),
            decreases self.arrays@.len() - k,
        {
            let a = self.arrays[k];
            let span = array_span(a.object, a.pointer_offset, a.count_offset, a.stride, a.maximum, read, count, query);
            let same = match span {
                Some((begin, n)) => begin == a.begin && n == a.count,
                None => false,
            };
            if !same {
                return false;
            }
            k = k + 1;
        }
        true
    }
}

} // verus!
