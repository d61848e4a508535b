//! Render-output reconciliation of copied cloth transforms: which source
//! rows the native writeback selected, read from the native bitmasks and
//! never inferred from magnitudes, positions or cached activity.
use vstd::prelude::*;
use crate::bytes::{le_at, le_u64};

verus! {

/// The most transforms a source mask covers.
pub const MAX_TRANSFORMS: usize = 4096;
/// The most writeback entries a capture reads.
pub const MAX_ENTRIES: usize = 32;
/// The 64-bit words of a source mask.
pub const MASK_WORDS: usize = 64;

/// Setting bit `a` leaves every other bit as it was and sets bit `a`.
pub proof fn lemma_bit_insert(x: u64, a: u64, b: u64)
    requires
        a < 64,
        b < 64,
    ensures
        ((x | (1u64 << a)) & (1u64 << b) != 0) == ((x & (1u64 << b) != 0) || a == b),
{
    assert(((x | (1u64 << a)) & (1u64 << b) != 0) == ((x & (1u64 << b) != 0) || a == b))
        by (bit_vector)
        requires
            a < 64,
            b < 64,
    ;
}

/// No bit of zero is set.
pub proof fn lemma_bit_zero(b: u64)
    requires
        b < 64,
    ensures
        (0u64 & (1u64 << b)) == 0,
{
    assert((0u64 & (1u64 << b)) == 0) by (bit_vector);
}

/// The set of source transforms selected by native writeback masks.
pub struct SourceMask {
    count: usize,
    bits: [u64; MASK_WORDS],
}

impl SourceMask {
    #[verifier::type_invariant]
    spec fn wf(self) -> bool {
        0 < self.count <= MAX_TRANSFORMS
    }

    /// The number of source transforms the mask ranges over.
    pub closed spec fn len(self) -> nat {
        self.count as nat
    }

    /// Whether source `i` is selected.
    pub closed spec fn has(self, i: int) -> bool {
        0 <= i < self.count && self.bits@[i / 64] & (1u64 << ((i % 64) as u64)) != 0
    }

    /// The selected sources.
    pub open spec fn members(self) -> Set<int> {
        Set::new(|i: int| self.has(i))
    }

    /// Every selected source lies below the mask's count.
    pub proof fn lemma_members_in_range(self)
        ensures
            forall|i: int| #[trigger] self.has(i) ==> 0 <= i < self.len(),
    {
    }

    /// An empty mask over `count` sources, for a count in 1..=4096.
    pub fn new(count: usize) -> (r: Option<SourceMask>)
        ensures
            r is Some <==> 0 < count <= MAX_TRANSFORMS,
            r matches Some(mask) ==> mask.len() == count && mask.members() == Set::<int>::empty(),
    {
        if count > 0 && count <= MAX_TRANSFORMS {
            let mask = SourceMask { count, bits: [0u64; MASK_WORDS] };
            proof {
                assert forall|i: int| !mask.has(i) by {
                    if 0 <= i < count {
                        lemma_bit_zero((i % 64) as u64);
                    }
                }
                assert(mask.members() =~= Set::<int>::empty());
            }
            Some(mask)
        } else {
            None
        }
    }

    /// Selects source `index`; refused (and nothing changed) when the index
    /// is outside the mask.
    pub fn insert(&mut self, index: usize) -> (r: Option<()>)
        ensures
            r is Some <==> index < old(self).len(),
            final(self).len() == old(self).len(),
            r is Some ==> final(self).members() == old(self).members().insert(index as int),
            r is None ==> final(self).members() == old(self).members(),
    {
        proof {
            use_type_invariant(&*self);
        }
        if index >= self.count {
            return None;
        }
        let ghost before = *self;
        let word = index / 64;
        let shift = (index % 64) as u64;
        let updated = self.bits[word] | (1u64 << shift);
        self.bits[word] = updated;
        proof {
            assert forall|i: int| self.has(i) == (before.has(i) || i == index as int) by {
                if 0 <= i < self.count {
                    lemma_bit_insert(before.bits@[word as int], shift, (i % 64) as u64);
                    if i / 64 != word as int {
                        assert(self.bits@[i / 64] == before.bits@[i / 64]);
                    }
                }
            }
            let after = *self;
            assert forall|i: int| #[trigger] after.members().contains(i) == before.members().insert(
                index as int,
            ).contains(i) by {
                assert(after.has(i) == (before.has(i) || i == index as int));
            }
            assert(after.members() =~= before.members().insert(index as int));
        }
        Some(())
    }

    /// The number of source transforms the mask ranges over.
    pub fn len_exec(&self) -> (r: usize)
        ensures
            r == self.len(),
    {
        self.count
    }

    /// Whether source `index` is selected.
    pub fn contains(&self, index: usize) -> (r: bool)
        ensures
            r == self.has(index as int),
            r == self.members().contains(index as int),
    {
        proof {
            use_type_invariant(self);
        }
        index < self.count && self.bits[index / 64] & (1u64 << ((index % 64) as u64)) != 0
    }
}


/// Masks that start empty and take the accepted inserts of `indices` in
/// order select exactly those indices: after them a source is selected
/// exactly when it lies below the count and was inserted.
pub proof fn inserts_select_exactly(masks: Seq<SourceMask>, indices: Seq<usize>)
    requires
        masks.len() == indices.len() + 1,
        masks[0].members() == Set::<int>::empty(),
        forall|k: int|
            0 <= k < indices.len() ==> #[trigger] indices[k] < masks[k].len() && masks[k + 1].len()
                == masks[k].len() && masks[k + 1].members() == masks[k].members().insert(
                indices[k] as int,
            ),
    ensures
        forall|i: usize|
            #[trigger] masks.last().members().contains(i as int) <==> i < masks[0].len()
                && indices.contains(i),
    decreases indices.len(),
{
    if indices.len() == 0 {
        assert(masks.last() == masks[0]);
    } else {
        let n = indices.len() - 1;
        let shorter = masks.subrange(0, masks.len() - 1);
        let fewer = indices.subrange(0, n as int);
        assert forall|k: int| 0 <= k < fewer.len() implies #[trigger] fewer[k] < shorter[k].len()
            && shorter[k + 1].len() == shorter[k].len() && shorter[k + 1].members()
            == shorter[k].members().insert(fewer[k] as int) by {
            assert(indices[k] < masks[k].len());
        }
        inserts_select_exactly(shorter, fewer);
        assert(shorter.last() == masks[n]);
        assert forall|k: int| 0 <= k <= n implies #[trigger] masks[k].len() == masks[0].len() by {
            lemma_mask_counts_stay(masks, indices, k);
        }
        assert forall|i: usize| #[trigger] masks.last().members().contains(i as int) <==> i
            < masks[0].len() && indices.contains(i) by {
            assert(masks.last() == masks[n + 1]);
            assert(indices[n as int] < masks[n as int].len());
            if indices.contains(i) && i != indices[n as int] {
                let k = choose|k: int| 0 <= k < indices.len() && indices[k] == i;
                assert(fewer[k] == i);
            }
            if fewer.contains(i) {
                let k = choose|k: int| 0 <= k < fewer.len() && fewer[k] == i;
                assert(indices[k] == i);
            }
            if i == indices[n as int] {
                assert(indices.contains(i));
            }
        }
    }
}

proof fn lemma_mask_counts_stay(masks: Seq<SourceMask>, indices: Seq<usize>, k: int)
    requires
        masks.len() == indices.len() + 1,
        forall|j: int|
            0 <= j < indices.len() ==> #[trigger] indices[j] < masks[j].len() && masks[j + 1].len()
                == masks[j].len() && masks[j + 1].members() == masks[j].members().insert(
                indices[j] as int,
            ),
        0 <= k < masks.len(),
    ensures
        masks[k].len() == masks[0].len(),
    decreases k,
{
    if k > 0 {
        lemma_mask_counts_stay(masks, indices, k - 1);
        assert(indices[k - 1] < masks[k - 1].len());
    }
}

/// A byte-memory image: what reading `n` bytes at an address answers.
pub type ByteImage = spec_fn(usize, nat) -> Option<Seq<u8>>;

/// The bytes of a read, if it succeeded.
pub open spec fn opt_bytes(r: Option<Vec<u8>>) -> Option<Seq<u8>> {
    match r {
        Some(v) => Some(v@),
        None => None,
    }
}

/// The reader answers every read as the image `m` does.
pub open spec fn bytes_as<F: Fn(usize, usize) -> Option<Vec<u8>>>(memory: F, m: ByteImage) -> bool {
    forall|a: usize, n: usize, r: Option<Vec<u8>>| #[trigger] memory.ensures((a, n), r) ==> opt_bytes(r)
        == m(a, n as nat)
}

/// The reader may be asked for any range.
pub open spec fn reads_bytes_anywhere<F: Fn(usize, usize) -> Option<Vec<u8>>>(memory: F) -> bool {
    forall|a: usize, n: usize| #[trigger] memory.requires((a, n))
}

/// A read of exactly `n` bytes; an answer of another length is no answer.
pub open spec fn spec_raw(m: ByteImage, a: usize, n: nat) -> Option<Seq<u8>> {
    match m(a, n) {
        Some(s) => if s.len() == n {
            Some(s)
        } else {
            None
        },
        None => None,
    }
}

/// A checked read: never at the null address nor past the address space.
pub open spec fn spec_block(m: ByteImage, a: usize, n: nat) -> Option<Seq<u8>> {
    if a == 0 || a + n > usize::MAX {
        None
    } else {
        spec_raw(m, a, n)
    }
}

/// A nonnegative 32-bit count at `offset`, bounded by `limit`.
pub open spec fn spec_count(s: Seq<u8>, offset: int, limit: nat) -> Option<nat> {
    let raw = le_at(s, offset, 4);
    if raw < 0x8000_0000 && raw <= limit {
        Some(raw)
    } else {
        None
    }
}

/// The pointer stored little-endian at `offset`.
pub open spec fn spec_pointer(s: Seq<u8>, offset: int) -> usize {
    le_at(s, offset, 8) as usize
}

/// Bit `k` of a mask of 32-bit little-endian words.
pub open spec fn spec_mask_bit(words: Seq<u8>, k: nat) -> bool {
    (le_at(words, ((k / 32) * 4) as int, 4) as u32) & (1u32 << ((k % 32) as u32)) != 0
}

/// Sources selected by the first `j` output rows of one writeback entry:
/// a row whose mask bit is set selects its nonnegative mapped source, and a
/// source outside the mask rejects the whole capture.
pub open spec fn spec_select(
    words: Seq<u8>,
    indices: Seq<u8>,
    source_count: nat,
    acc: Set<int>,
    j: nat,
) -> Option<Set<int>>
    decreases j,
{
    if j == 0 {
        Some(acc)
    } else {
        match spec_select(words, indices, source_count, acc, (j - 1) as nat) {
            None => None,
            Some(selected) => {
                let k = (j - 1) as nat;
                if spec_mask_bit(words, k) {
                    let raw = le_at(indices, (k * 2) as int, 2);
                    if raw < 0x8000 {
                        if raw < source_count {
                            Some(selected.insert(raw as int))
                        } else {
                            None
                        }
                    } else {
                        Some(selected)
                    }
                } else {
                    Some(selected)
                }
            },
        }
    }
}

/// The smaller of two numbers.
pub open spec fn spec_min(a: nat, b: nat) -> nat {
    if a < b {
        a
    } else {
        b
    }
}

/// The selection after applying writeback entry `i` to `acc`.
#[verifier::opaque]
pub open spec fn spec_entry(
    m: ByteImage,
    entries: usize,
    i: nat,
    source_count: nat,
    acc: Set<int>,
) -> Option<Set<int>> {
    if entries + i * 0x38 > usize::MAX {
        None
    } else {
        let address = (entries + i * 0x38) as usize;
        match spec_block(m, address, 0x38) {
            None => None,
            Some(entry) => match (spec_count(entry, 0x20, 128), spec_count(entry, 0x28, 4096)) {
                (Some(word_count), Some(bit_count)) => if word_count != (bit_count + 31) / 32 {
                    None
                } else if bit_count == 0 {
                    Some(acc)
                } else {
                    let words_at = spec_pointer(entry, 0x18);
                    let output = spec_pointer(entry, 0);
                    let mapping = spec_pointer(entry, 8);
                    if words_at == 0 || output == 0 || mapping == 0 || output + 0x20 > usize::MAX {
                        None
                    } else {
                        match spec_block(m, (output + 0x20) as usize, 4) {
                            None => None,
                            Some(output_header) => match spec_count(output_header, 0, 4096) {
                                None => None,
                                Some(output_count) => if bit_count < output_count || mapping
                                    + 0x10 > usize::MAX {
                                    None
                                } else {
                                    match spec_block(m, (mapping + 0x10) as usize, 16) {
                                        None => None,
                                        Some(map_header) => match spec_count(map_header, 0, 4096) {
                                            None => None,
                                            Some(map_count) => {
                                                let map_at = spec_pointer(map_header, 8);
                                                let n = spec_min(output_count, map_count);
                                                match spec_raw(m, words_at, word_count * 4) {
                                                    None => None,
                                                    Some(words) => if n > 0 && map_at == 0 {
                                                        None
                                                    } else {
                                                        let indices = if n > 0 {
                                                            spec_raw(m, map_at, n * 2)
                                                        } else {
                                                            Some(Seq::<u8>::empty())
                                                        };
                                                        match indices {
                                                            None => None,
                                                            Some(indices) => spec_select(
                                                                words,
                                                                indices,
                                                                source_count,
                                                                acc,
                                                                n,
                                                            ),
                                                        }
                                                    },
                                                }
                                            },
                                        },
                                    }
                                },
                            },
                        }
                    }
                },
                _ => None,
            },
        }
    }
}

/// The selection after the first `k` writeback entries.
pub open spec fn spec_entries(m: ByteImage, entries: usize, source_count: nat, k: nat) -> Option<
    Set<int>,
>
    decreases k,
{
    if k == 0 {
        Some(Set::empty())
    } else {
        match spec_entries(m, entries, source_count, (k - 1) as nat) {
            None => None,
            Some(acc) => spec_entry(m, entries, (k - 1) as nat, source_count, acc),
        }
    }
}

/// The sources that the native writeback of a cloth core selects, as read
/// from the memory image `m`; `None` where the capture fails closed.
pub open spec fn spec_capture_mask(core: usize, source_count: nat, m: ByteImage) -> Option<Set<int>> {
    if source_count == 0 || source_count > MAX_TRANSFORMS || core + 0x40 > usize::MAX {
        None
    } else {
        match spec_block(m, (core + 0x18) as usize, 8) {
            None => None,
            Some(owner_bytes) => {
                let owner = spec_pointer(owner_bytes, 0);
                if owner == 0 || owner + 0x68 > usize::MAX {
                    None
                } else {
                    match spec_block(m, (owner + 0x68) as usize, 1) {
                        None => None,
                        Some(flag) => if flag[0] == 0 {
                            Some(Set::empty())
                        } else {
                            match spec_block(m, (core + 0x40) as usize, 12) {
                                None => None,
                                Some(header) => {
                                    let entries = spec_pointer(header, 0);
                                    match spec_count(header, 8, MAX_ENTRIES as nat) {
                                        None => None,
                                        Some(count) => if count > 0 && entries == 0 {
                                            None
                                        } else {
                                            spec_entries(m, entries, source_count, count)
                                        },
                                    }
                                },
                            }
                        },
                    }
                }
            },
        }
    }
}

proof fn lemma_select_none(words: Seq<u8>, indices: Seq<u8>, sc: nat, acc: Set<int>, j: nat, k: nat)
    requires
        j <= k,
        spec_select(words, indices, sc, acc, j) is None,
    ensures
        spec_select(words, indices, sc, acc, k) is None,
    decreases k,
{
    if j < k {
        lemma_select_none(words, indices, sc, acc, j, (k - 1) as nat);
    }
}

proof fn lemma_entries_none(m: ByteImage, entries: usize, sc: nat, j: nat, k: nat)
    requires
        j <= k,
        spec_entries(m, entries, sc, j) is None,
    ensures
        spec_entries(m, entries, sc, k) is None,
    decreases k,
{
    if j < k {
        lemma_entries_none(m, entries, sc, j, (k - 1) as nat);
    }
}

fn read_raw<F: Fn(usize, usize) -> Option<Vec<u8>>>(memory: &F, a: usize, n: usize) -> (r: Option<
    Vec<u8>,
>)
    requires
        reads_bytes_anywhere(*memory),
    ensures
        forall|m: ByteImage| bytes_as(*memory, m) ==> opt_bytes(r) == spec_raw(m, a, n as nat),
        r matches Some(v) ==> v@.len() == n,
{
    let answer = memory(a, n);
    match answer {
        Some(v) => if v.len() == n {
            Some(v)
        } else {
            None
        },
        None => None,
    }
}

fn read_block<F: Fn(usize, usize) -> Option<Vec<u8>>>(memory: &F, a: usize, n: usize) -> (r: Option<
    Vec<u8>,
>)
    requires
        reads_bytes_anywhere(*memory),
    ensures
        forall|m: ByteImage| bytes_as(*memory, m) ==> opt_bytes(r) == spec_block(m, a, n as nat),
        r matches Some(v) ==> v@.len() == n,
{
    if a == 0 || a.checked_add(n).is_none() {
        return None;
    }
    read_raw(memory, a, n)
}

fn count_at(bytes: &Vec<u8>, offset: usize, limit: usize) -> (r: Option<usize>)
    requires
        offset + 4 <= bytes@.len(),
    ensures
        match spec_count(bytes@, offset as int, limit as nat) {
            Some(c) => r == Some(c as usize),
            None => r is None,
        },
{
    let raw = le_u64(bytes, offset, 4);
    if raw < 0x8000_0000 && raw <= limit as u64 {
        Some(raw as usize)
    } else {
        None
    }
}

fn same_bytes(a: &Vec<u8>, b: &Vec<u8>) -> (r: bool)
    ensures
        r == (a@ == b@),
{
    if a.len() != b.len() {
        return false;
    }
    let mut i: usize = 0;
    while i < a.len()
        invariant
            a@.len() == b@.len(),
            0 <= i <= a@.len(),
            forall|j: int| 0 <= j < i ==> a@[j] == b@[j],
        decreases a@.len() - i,
    {
        if a[i] != b[i] {
            return false;
        }
        i = i + 1;
    }
    assert(a@ =~= b@);
    true
}

fn select_sources(
    words: &Vec<u8>,
    indices: &Vec<u8>,
    n: usize,
    result: &mut SourceMask,
) -> (ok: bool)
    requires
        n <= (words@.len() / 4) * 32,
        indices@.len() == n * 2,
        n <= MAX_TRANSFORMS,
    ensures
        final(result).len() == old(result).len(),
        ok ==> spec_select(words@, indices@, old(result).len(), old(result).members(), n as nat)
            == Some(final(result).members()),
        !ok ==> spec_select(words@, indices@, old(result).len(), old(result).members(), n as nat)
            is None,
{
    let ghost sc = result.len();
    let ghost acc = result.members();
    let mut j: usize = 0;
    while j < n
        invariant
            0 <= j <= n,
            n <= MAX_TRANSFORMS,
            n <= (words@.len() / 4) * 32,
            indices@.len() == n * 2,
            result.len() == sc,
            sc == old(result).len(),
            acc == old(result).members(),
            spec_select(words@, indices@, sc, acc, j as nat) == Some(result.members()),
        decreases n - j,
    {
        assert((j / 32) * 4 + 4 <= words@.len()) by (nonlinear_arith)
            requires
                j < n,
                n <= (words@.len() / 4) * 32,
        ;
        let word = le_u64(words, (j / 32) * 4, 4) as u32;
        if word & (1u32 << ((j % 32) as u32)) != 0 {
            let raw = le_u64(indices, j * 2, 2);
            if raw < 0x8000 {
                match result.insert(raw as usize) {
                    Some(()) => {},
                    None => {
                        proof {
                            lemma_select_none(words@, indices@, sc, acc, (j + 1) as nat, n as nat);
                        }
                        return false;
                    },
                }
            }
        }
        j = j + 1;
    }
    true
}

fn apply_entry<F: Fn(usize, usize) -> Option<Vec<u8>>>(
    memory: &F,
    entries: usize,
    i: usize,
    result: &mut SourceMask,
) -> (ok: bool)
    requires
        reads_bytes_anywhere(*memory),
        i < MAX_ENTRIES,
    ensures
        final(result).len() == old(result).len(),
        forall|m: ByteImage|
            bytes_as(*memory, m) ==> if ok {
                spec_entry(m, entries, i as nat, old(result).len(), old(result).members()) == Some(
                    final(result).members(),
                )
            } else {
                spec_entry(m, entries, i as nat, old(result).len(), old(result).members()) is None
            },
{
    reveal(spec_entry);
    let offset = i * 0x38;
    if entries.checked_add(offset).is_none() {
        return false;
    }
    let entry_address = entries + offset;
    let entry = match read_block(memory, entry_address, 0x38) {
        Some(b) => b,
        None => return false,
    };
    let word_count = count_at(&entry, 0x20, MAX_TRANSFORMS / 32);
    let bit_count = count_at(&entry, 0x28, MAX_TRANSFORMS);
    let (word_count, bit_count) = match (word_count, bit_count) {
        (Some(w), Some(b)) => (w, b),
        _ => return false,
    };
    if word_count != (bit_count + 31) / 32 {
        return false;
    }
    if bit_count == 0 {
        return true;
    }
    let words_at = le_u64(&entry, 0x18, 8) as usize;
    let output = le_u64(&entry, 0, 8) as usize;
    let mapping = le_u64(&entry, 8, 8) as usize;
    if words_at == 0 || output == 0 || mapping == 0 || output.checked_add(0x20).is_none() {
        return false;
    }
    let output_header = match read_block(memory, output + 0x20, 4) {
        Some(b) => b,
        None => return false,
    };
    let output_count = match count_at(&output_header, 0, MAX_TRANSFORMS) {
        Some(c) => c,
        None => return false,
    };
    // Native output loop accesses one mask bit for every output row.
    if bit_count < output_count || mapping.checked_add(0x10).is_none() {
        return false;
    }
    let map_header = match read_block(memory, mapping + 0x10, 16) {
        Some(b) => b,
        None => return false,
    };
    let map_count = match count_at(&map_header, 0, MAX_TRANSFORMS) {
        Some(c) => c,
        None => return false,
    };
    let map_at = le_u64(&map_header, 8, 8) as usize;
    let n = if output_count < map_count {
        output_count
    } else {
        map_count
    };
    let words = match read_raw(memory, words_at, word_count * 4) {
        Some(b) => b,
        None => return false,
    };
    if n > 0 && map_at == 0 {
        return false;
    }
    let indices = if n > 0 {
        match read_raw(memory, map_at, n * 2) {
            Some(b) => b,
            None => return false,
        }
    } else {
        let empty: Vec<u8> = Vec::new();
        empty
    };
    let ghost before = *result;
    assert(n == 0 ==> indices@ =~= Seq::<u8>::empty());
    assert(n <= (words@.len() / 4) * 32) by (nonlinear_arith)
        requires
            words@.len() == word_count * 4,
            word_count == (bit_count + 31) / 32,
            n <= output_count,
            output_count <= bit_count,
    ;
    if !select_sources(&words, &indices, n, result) {
        return false;
    }
    // A changed entry, mapping header or output header rejects the capture.
    let entry_again = read_block(memory, entry_address, 0x38);
    let map_again = read_block(memory, mapping + 0x10, 16);
    let output_again = read_block(memory, output + 0x20, 4);
    match (entry_again, map_again, output_again) {
        (Some(e), Some(mh), Some(oh)) => same_bytes(&e, &entry) && same_bytes(&mh, &map_header)
            && same_bytes(&oh, &output_header),
        _ => false,
    }
}

fn apply_entries<F: Fn(usize, usize) -> Option<Vec<u8>>>(
    memory: &F,
    entries: usize,
    count: usize,
    result: &mut SourceMask,
) -> (ok: bool)
    requires
        reads_bytes_anywhere(*memory),
        count <= MAX_ENTRIES,
        old(result).members() == Set::<int>::empty(),
    ensures
        final(result).len() == old(result).len(),
        forall|m: ByteImage|
            bytes_as(*memory, m) ==> if ok {
                spec_entries(m, entries, old(result).len(), count as nat) == Some(final(result).members())
            } else {
                spec_entries(m, entries, old(result).len(), count as nat) is None
            },
{
    let ghost sc = result.len();
    let mut i: usize = 0;
    while i < count
        invariant
            reads_bytes_anywhere(*memory),
            0 <= i <= count <= MAX_ENTRIES,
            result.len() == sc,
            sc == old(result).len(),
            forall|m: ByteImage|
                bytes_as(*memory, m) ==> spec_entries(m, entries, sc, i as nat) == Some(result.members()),
        decreases count - i,
    {
        let ghost acc = result.members();
        if !apply_entry(memory, entries, i, result) {
            proof {
                assert forall|m: ByteImage| bytes_as(*memory, m) implies spec_entries(
                    m,
                    entries,
                    sc,
                    count as nat,
                ) is None by {
                    assert(spec_entries(m, entries, sc, (i + 1) as nat) is None);
                    lemma_entries_none(m, entries, sc, (i + 1) as nat, count as nat);
                }
            }
            return false;
        }
        i = i + 1;
    }
    true
}

/// Captures the source transforms selected by the native writeback masks of
/// a cloth core. Each entry's mask word selects an output row; the row's
/// nonnegative mapped index is the source. Entries, mapping and output
/// headers and the core header are read again after use; a change, any
/// unreadable or malformed header, or a source outside `source_count`
/// rejects the whole capture.
pub fn capture_mask(
    core: usize,
    source_count: usize,
    memory: &impl Fn(usize, usize) -> Option<Vec<u8>>,
) -> (r: Option<SourceMask>)
    requires
        reads_bytes_anywhere(*memory),
    ensures
        r is Some ==> 0 < source_count <= MAX_TRANSFORMS,
        r matches Some(mask) ==> mask.len() == source_count,
        forall|m: ByteImage|
            bytes_as(*memory, m) ==> match spec_capture_mask(core, source_count as nat, m) {
                Some(selected) => r matches Some(mask) && mask.members() == selected,
                None => r is None,
            },
{
    let mut result = match SourceMask::new(source_count) {
        Some(mask) => mask,
        None => return None,
    };
    if core.checked_add(0x40).is_none() {
        return None;
    }
    let owner_bytes = match read_block(memory, core + 0x18, 8) {
        Some(b) => b,
        None => return None,
    };
    let owner = le_u64(&owner_bytes, 0, 8) as usize;
    if owner == 0 || owner.checked_add(0x68).is_none() {
        return None;
    }
    let flag = match read_block(memory, owner + 0x68, 1) {
        Some(b) => b,
        None => return None,
    };
    if flag[0] == 0 {
        return Some(result);
    }
    let header = match read_block(memory, core + 0x40, 12) {
        Some(b) => b,
        None => return None,
    };
    let entries = le_u64(&header, 0, 8) as usize;
    let count = match count_at(&header, 8, MAX_ENTRIES) {
        Some(c) => c,
        None => return None,
    };
    if count > 0 && entries == 0 {
        return None;
    }
    if !apply_entries(memory, entries, count, &mut result) {
        return None;
    }
    let header_again = match read_block(memory, core + 0x40, 12) {
        Some(b) => b,
        None => return None,
    };
    if same_bytes(&header_again, &header) {
        Some(result)
    } else {
        None
    }
}


/// The output rows `start..start + output_len` of `mapping` fit both the
/// mapping and the transform limits.
pub open spec fn spec_range_fits(output_len: nat, mapping_len: nat, start: nat) -> bool {
    output_len <= MAX_TRANSFORMS && mapping_len <= MAX_TRANSFORMS && start + output_len
        <= mapping_len
}

/// Whether an output range of transforms fits its mapping and the limits.
pub fn range_fits(output_len: usize, mapping_len: usize, start: usize) -> (r: bool)
    ensures
        r == spec_range_fits(output_len as nat, mapping_len as nat, start as nat),
{
    output_len <= MAX_TRANSFORMS && mapping_len <= MAX_TRANSFORMS && match start.checked_add(
        output_len,
    ) {
        Some(end) => end <= mapping_len,
        None => false,
    }
}

/// Output row `p` maps to a source that the mask selects.
pub open spec fn row_selected(mapping: Seq<i16>, start: int, p: int, mask: SourceMask) -> bool {
    mapping[start + p] >= 0 && mask.has(mapping[start + p] as int)
}

/// Output row `p` maps to a nonnegative source outside the mask.
pub open spec fn row_out_of_domain(mapping: Seq<i16>, start: int, p: int, mask: SourceMask) -> bool {
    mapping[start + p] >= 0 && mapping[start + p] >= mask.len()
}

/// The output rows of a copied transform range that the native writeback
/// selected, in row order: a row is selected when its mapped source is
/// nonnegative and set in the mask. A negative source is the native
/// fallback and stays unselected. Refused (`None`) when the range does not
/// fit or a nonnegative source lies outside the mask, so that no row is
/// converted unless the whole range is valid.
pub fn reconcile_selection(output_len: usize, mapping: &[i16], start: usize, mask: &SourceMask) -> (r:
    Option<Vec<usize>>)
    ensures
        r is Some <==> spec_range_fits(output_len as nat, mapping@.len(), start as nat) && forall|
            p: int,
        | 0 <= p < output_len ==> !row_out_of_domain(mapping@, start as int, p, *mask),
        r matches Some(rows) ==> {
            &&& forall|k: int| 0 <= k < rows@.len() ==> #[trigger] rows@[k] < output_len
                && row_selected(mapping@, start as int, rows@[k] as int, *mask)
            &&& forall|k: int, l: int| 0 <= k < l < rows@.len() ==> #[trigger] rows@[k]
                < #[trigger] rows@[l]
            &&& forall|p: int|
                0 <= p < output_len && row_selected(mapping@, start as int, p, *mask) ==> rows@.contains(
                    p as usize,
                )
        },
{
    if !range_fits(output_len, mapping.len(), start) {
        return None;
    }
    let mut p: usize = 0;
    while p < output_len
        invariant
            spec_range_fits(output_len as nat, mapping@.len(), start as nat),
            0 <= p <= output_len,
            forall|q: int| 0 <= q < p ==> !row_out_of_domain(mapping@, start as int, q, *mask),
        decreases output_len - p,
    {
        let index = mapping[start + p];
        if index >= 0 && index as usize >= mask.len_exec() {
            assert(row_out_of_domain(mapping@, start as int, p as int, *mask));
            return None;
        }
        p = p + 1;
    }
    let mut rows: Vec<usize> = Vec::new();
    let mut p: usize = 0;
    while p < output_len
        invariant
            spec_range_fits(output_len as nat, mapping@.len(), start as nat),
            0 <= p <= output_len,
            forall|k: int| 0 <= k < rows@.len() ==> #[trigger] rows@[k] < p && row_selected(
                mapping@,
                start as int,
                rows@[k] as int,
                *mask,
            ),
            forall|k: int, l: int| 0 <= k < l < rows@.len() ==> #[trigger] rows@[k]
                < #[trigger] rows@[l],
            forall|q: int|
                0 <= q < p && row_selected(mapping@, start as int, q, *mask) ==> rows@.contains(
                    q as usize,
                ),
        decreases output_len - p,
    {
        let index = mapping[start + p];
        if index >= 0 && mask.contains(index as usize) {
            let ghost before = rows@;
            rows.push(p);
            proof {
                assert forall|q: int|
                    0 <= q < p + 1 && row_selected(mapping@, start as int, q, *mask) implies rows@.contains(
                    q as usize,
                ) by {
                    if q < p {
                        let k = choose|k: int| 0 <= k < before.len() && before[k] == q as usize;
                        assert(rows@[k] == q as usize);
                    } else {
                        assert(rows@[rows@.len() - 1] == p);
                    }
                }
            }
        }
        p = p + 1;
    }
    Some(rows)
}
} // verus!
