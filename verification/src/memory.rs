//! Permission checks of the current memory operation. Region and page
//! permissions are cached only inside an operation scope, never across one,
//! and object data is never cached.
//!
//! The operating-system queries themselves are made by the caller, which
//! hands the answers to this cache.
use vstd::prelude::*;

verus! {

/// How many regions a cache holds.
pub const REGION_ENTRIES: usize = 128;
/// How many page records a cache holds.
pub const PAGE_ENTRIES: usize = 256;
/// Pages a single span check queries at most before using the region path.
pub const MAX_SPAN_PAGES: usize = 64;
/// `PAGE_GUARD` in a protection value.
pub const PAGE_GUARD_BIT: u32 = 0x100;

/// Read and write permission of a page protection value: a guard page has
/// neither; otherwise the base protection decides.
pub open spec fn spec_permissions(protection: u32) -> (bool, bool) {
    if protection & 0x100 != 0 {
        (false, false)
    } else {
        let p = protection & 0xff;
        (
            p == 0x02 || p == 0x04 || p == 0x08 || p == 0x10 || p == 0x20 || p == 0x40 || p == 0x80,
            p == 0x04 || p == 0x08 || p == 0x40 || p == 0x80,
        )
    }
}

/// Read and write permission of a page protection value.
pub fn permissions(protection: u32) -> (r: (bool, bool))
    ensures
        r == spec_permissions(protection),
{
    if protection & 0x100 != 0 {
        return (false, false);
    }
    let p = protection & 0xff;
    (
        p == 0x02 || p == 0x04 || p == 0x08 || p == 0x10 || p == 0x20 || p == 0x40 || p == 0x80,
        p == 0x04 || p == 0x08 || p == 0x40 || p == 0x80,
    )
}

/// A writable protection is always readable too.
pub proof fn writable_is_readable(protection: u32)
    ensures
        spec_permissions(protection).1 ==> spec_permissions(protection).0,
{
}

/// A committed memory region with its permissions.
#[derive(Clone, Copy, Debug, PartialEq, Eq, Structural)]
pub struct Region {
    pub start: usize,
    pub end: usize,
    pub readable: bool,
    pub writable: bool,
}

/// A region allows a read, or a write when `write` is set.
pub open spec fn allows(r: Region, write: bool) -> bool {
    if write {
        r.writable
    } else {
        r.readable
    }
}

/// What the operating system reports of the region holding an address.
#[derive(Clone, Copy, Debug)]
pub struct RegionQuery {
    pub committed: bool,
    pub protection: u32,
    pub base: usize,
    pub size: usize,
}

/// The committed, non-guard region of a query when it holds the whole range
/// `address..end`.
pub open spec fn spec_region_from_query(address: usize, end: usize, query: RegionQuery) -> Option<
    Region,
> {
    if !query.committed || query.protection & 0x100 != 0 || query.base + query.size > usize::MAX {
        None
    } else {
        let stop = (query.base + query.size) as usize;
        if address < query.base || end > stop {
            None
        } else {
            Some(
                Region {
                    start: query.base,
                    end: stop,
                    readable: spec_permissions(query.protection).0,
                    writable: spec_permissions(query.protection).1,
                },
            )
        }
    }
}

/// The region a query reports, when it is committed, not a guard page,
/// and holds the whole range `address..end`.
pub fn region_from_query(address: usize, end: usize, query: RegionQuery) -> (r: Option<Region>)
    ensures
        r == spec_region_from_query(address, end, query),
{
    if !query.committed || query.protection & 0x100 != 0 {
        return None;
    }
    let (readable, writable) = permissions(query.protection);
    let stop = match query.base.checked_add(query.size) {
        Some(stop) => stop,
        None => return None,
    };
    if address < query.base || end > stop {
        return None;
    }
    Some(Region { start: query.base, end: stop, readable, writable })
}

/// A power of two: one bit set.
pub open spec fn spec_power_of_two(x: usize) -> bool {
    x != 0 && x & ((x - 1) as usize) == 0
}

/// The page of `address`, for a power-of-two page size.
pub open spec fn page_base(address: usize, page_size: usize) -> usize {
    address & !((page_size - 1) as usize)
}

/// The base of an address's page lies at or below it.
pub proof fn lemma_page_base_below(address: usize, page_size: usize)
    requires
        page_size != 0,
    ensures
        page_base(address, page_size) <= address,
{
    assert(address & !((page_size - 1) as usize) <= address) by (bit_vector)
        requires
            page_size != 0,
    ;
}

/// How a span check proceeds before any query is made.
#[derive(Clone, Copy, Debug, PartialEq, Eq, Structural)]
pub enum SpanPlan {
    /// The answer is known.
    Answer(bool),
    /// Check the whole region instead.
    Region,
    /// Query the working-set attributes of these pages.
    Pages { first: usize, pages: usize },
}

/// The pages of a span: first page and count.
pub open spec fn span_pages(address: usize, end: usize, page_size: usize) -> (usize, usize) {
    let first = page_base(address, page_size);
    (first, ((end - 1 - first) / (page_size as int) + 1) as usize)
}

/// The pages of a span lie inside the address space.
pub open spec fn pages_fit(first: usize, pages: usize, page_size: usize, end: usize) -> bool {
    &&& 1 <= pages
    &&& page_size > 0
    &&& first + (pages - 1) * page_size < end
}

/// Working-set attributes: valid bit and the bad-page bit.
pub open spec fn page_attributes_usable(flags: usize) -> bool {
    flags & 1 != 0 && flags & 0x8000_0000 == 0
}

/// The protection bits of a working-set page record.
pub open spec fn page_protection(flags: usize) -> u32 {
    ((flags >> 4usize) & 0x7ff) as u32
}

/// One more query, saturating.
pub open spec fn counted(queries: u64) -> u64 {
    if queries == u64::MAX {
        u64::MAX
    } else {
        (queries + 1) as u64
    }
}

/// The permission state of one thread: the operation scopes open, what the
/// current scope has cached, and how many operating-system queries were made.
pub struct Cache {
    depth: usize,
    entries: [Option<Region>; REGION_ENTRIES],
    next: usize,
    pages: [Option<Region>; PAGE_ENTRIES],
    queries: u64,
}

/// The model of a cache: nesting depth, cached regions, the slot the next
/// region is recorded in (round robin), cached pages and the number of
/// queries made.
pub struct CacheView {
    pub depth: nat,
    pub entries: Seq<Option<Region>>,
    pub next: nat,
    pub pages: Seq<Option<Region>>,
    pub queries: u64,
}

impl View for Cache {
    type V = CacheView;

    closed spec fn view(&self) -> CacheView {
        CacheView {
            depth: self.depth as nat,
            entries: self.entries@,
            next: (self.next % REGION_ENTRIES) as nat,
            pages: self.pages@,
            queries: self.queries,
        }
    }
}

/// No slot holds a record.
pub open spec fn all_empty(s: Seq<Option<Region>>) -> bool {
    forall|i: int| 0 <= i < s.len() ==> #[trigger] s[i] is None
}

/// The first cached region, from entry `i` on, that holds `address..end`.
pub open spec fn find_region(entries: Seq<Option<Region>>, address: usize, end: usize, i: nat) -> Option<
    Region,
>
    decreases entries.len() - i,
{
    if i >= entries.len() {
        None
    } else {
        match entries[i as int] {
            Some(r) => if address >= r.start && end <= r.end {
                Some(r)
            } else {
                find_region(entries, address, end, i + 1)
            },
            None => find_region(entries, address, end, i + 1),
        }
    }
}

/// What a scope's cached regions answer for a region check: a refused
/// range is answered at once, outside a scope nothing is cached, and inside
/// one the first cached region holding the range answers with its
/// permission. `None` when the check needs a query.
pub open spec fn spec_cached_answer(c: CacheView, address: usize, length: usize, write: bool) -> Option<
    Option<(usize, usize)>,
> {
    if address == 0 || length == 0 || address + length > usize::MAX {
        Some(None)
    } else if c.depth == 0 {
        None
    } else {
        match find_region(c.entries, address, (address + length) as usize, 0) {
            Some(region) => Some(region_answer(Some(region), write)),
            None => None,
        }
    }
}

proof fn lemma_find_region_some(entries: Seq<Option<Region>>, address: usize, end: usize, i: nat, k: int)
    requires
        i <= k < entries.len(),
        entries[k] matches Some(r) && address >= r.start && end <= r.end,
    ensures
        find_region(entries, address, end, i) is Some,
    decreases k - i,
{
    if i < k {
        match entries[i as int] {
            Some(r) => {
                if !(address >= r.start && end <= r.end) {
                    lemma_find_region_some(entries, address, end, i + 1, k);
                }
            },
            None => {
                lemma_find_region_some(entries, address, end, i + 1, k);
            },
        }
    }
}

proof fn lemma_find_region_empty(entries: Seq<Option<Region>>, address: usize, end: usize, i: nat)
    requires
        all_empty(entries),
    ensures
        find_region(entries, address, end, i) is None,
    decreases entries.len() - i,
{
    if i < entries.len() {
        lemma_find_region_empty(entries, address, end, i + 1);
    }
}

/// A region recorded by a check inside a scope answers the next check of
/// any range it holds from the cache, without a query.
pub proof fn recorded_region_answers_later_checks(
    before: CacheView,
    after: CacheView,
    region: Region,
    address: usize,
    length: usize,
    write: bool,
)
    requires
        before.depth > 0,
        before.entries.len() == REGION_ENTRIES,
        before.next < REGION_ENTRIES,
        after.depth == before.depth,
        after.entries == before.entries.update(before.next as int, Some(region)),
        address != 0,
        length != 0,
        address + length <= usize::MAX,
        region.start <= address,
        address + length <= region.end,
    ensures
        spec_cached_answer(after, address, length, write) is Some,
{
    lemma_find_region_some(after.entries, address, (address + length) as usize, 0, before.next as int);
}

/// Nothing is reused outside a scope, at the start of a scope, or after a
/// nested scope returns: every valid region check then needs a query.
pub proof fn nothing_kept_needs_a_query(c: CacheView, address: usize, length: usize, write: bool)
    requires
        c.depth == 0 || all_empty(c.entries),
        address != 0,
        length != 0,
        address + length <= usize::MAX,
    ensures
        spec_cached_answer(c, address, length, write) is None,
{
    if c.depth > 0 {
        lemma_find_region_empty(c.entries, address, (address + length) as usize, 0);
    }
}

/// No region and no page cached.
pub open spec fn empty_slots(n: nat) -> Seq<Option<Region>> {
    Seq::new(n, |i: int| None::<Region>)
}

/// The cache after a nested scope is entered (`entering`) or left: the
/// depth moves by one, nothing stays cached, and the query count is kept.
pub open spec fn scope_change(c: CacheView, entering: bool) -> CacheView {
    CacheView {
        depth: if entering {
            c.depth + 1
        } else {
            (c.depth - 1) as nat
        },
        entries: empty_slots(REGION_ENTRIES as nat),
        next: 0,
        pages: empty_slots(PAGE_ENTRIES as nat),
        queries: c.queries,
    }
}

/// The cache and the answer after one region check, when the operating
/// system would report `q` for the address: a cached answer changes
/// nothing; otherwise one query is counted and, inside a scope, the region
/// found is recorded in the next slot.
pub open spec fn check_outcome(
    c: CacheView,
    address: usize,
    length: usize,
    write: bool,
    q: Option<RegionQuery>,
) -> (CacheView, Option<(usize, usize)>) {
    match spec_cached_answer(c, address, length, write) {
        Some(answer) => (c, answer),
        None => {
            let found = queried_region(address, length, q);
            let record = found is Some && c.depth > 0;
            (
                CacheView {
                    entries: if record {
                        c.entries.update(c.next as int, found)
                    } else {
                        c.entries
                    },
                    next: if record {
                        (c.next + 1) % (REGION_ENTRIES as nat)
                    } else {
                        c.next
                    },
                    queries: counted(c.queries),
                    ..c
                },
                region_answer(found, write),
            )
        },
    }
}

/// The query answers every address as `g` does.
pub open spec fn queries_as<F: Fn(usize) -> Option<RegionQuery>>(
    query: F,
    g: spec_fn(usize) -> Option<RegionQuery>,
) -> bool {
    forall|a: usize, r: Option<RegionQuery>| #[trigger] query.ensures((a,), r) ==> r == g(a)
}

/// The cache after the region checks `checks`, in order, for an operating
/// system answering as `g`.
pub open spec fn run_checks(
    c: CacheView,
    checks: Seq<(usize, usize, bool)>,
    g: spec_fn(usize) -> Option<RegionQuery>,
) -> CacheView
    decreases checks.len(),
{
    if checks.len() == 0 {
        c
    } else {
        let (a, l, w) = checks[0];
        run_checks(check_outcome(c, a, l, w, g(a)).0, checks.drop_first(), g)
    }
}

/// Every check of a sequence is a valid range inside `region`.
pub open spec fn checks_inside(checks: Seq<(usize, usize, bool)>, region: Region) -> bool {
    forall|k: int|
        0 <= k < checks.len() ==> {
            let (a, l, w) = #[trigger] checks[k];
            a != 0 && l != 0 && a + l <= usize::MAX && region.start <= a && a + l <= region.end
        }
}

proof fn lemma_checks_reuse(
    c: CacheView,
    checks: Seq<(usize, usize, bool)>,
    g: spec_fn(usize) -> Option<RegionQuery>,
    region: Region,
    k: int,
)
    requires
        c.depth > 0,
        0 <= k < c.entries.len(),
        c.entries[k] == Some(region),
        checks_inside(checks, region),
    ensures
        run_checks(c, checks, g) == c,
    decreases checks.len(),
{
    if checks.len() > 0 {
        let (a, l, w) = checks[0];
        assert(checks_inside(checks, region));
        let first = checks[0];
        assert(first.0 != 0 && first.1 != 0 && first.0 + first.1 <= usize::MAX && region.start
            <= first.0 && first.0 + first.1 <= region.end);
        lemma_find_region_some(c.entries, a, (a + l) as usize, 0, k);
        assert(check_outcome(c, a, l, w, g(a)).0 == c);
        let rest = checks.drop_first();
        assert forall|j: int| 0 <= j < rest.len() implies {
            let (a2, l2, w2) = #[trigger] rest[j];
            a2 != 0 && l2 != 0 && a2 + l2 <= usize::MAX && region.start <= a2 && a2 + l2 <= region.end
        } by {
            assert(rest[j] == checks[j + 1]);
        }
        lemma_checks_reuse(c, rest, g, region, k);
    }
}

/// Within one scope that starts with nothing cached, region checks of
/// ranges inside the region the first check finds cost exactly one query in
/// all: the first check queries and records the region, and every later one
/// is answered from the cache.
pub proof fn one_query_per_region_in_a_scope(
    c: CacheView,
    checks: Seq<(usize, usize, bool)>,
    g: spec_fn(usize) -> Option<RegionQuery>,
    region: Region,
)
    requires
        c.depth > 0,
        c.entries.len() == REGION_ENTRIES,
        c.next < REGION_ENTRIES,
        all_empty(c.entries),
        checks.len() > 0,
        queried_region(checks[0].0, checks[0].1, g(checks[0].0)) == Some(region),
        checks_inside(checks, region),
    ensures
        run_checks(c, checks, g).queries == counted(c.queries),
{
    let (a, l, w) = checks[0];
    let first = checks[0];
    assert(first.0 != 0 && first.1 != 0 && first.0 + first.1 <= usize::MAX);
    nothing_kept_needs_a_query(c, a, l, w);
    let after = check_outcome(c, a, l, w, g(a)).0;
    assert(after.entries[c.next as int] == Some(region));
    let rest = checks.drop_first();
    assert forall|j: int| 0 <= j < rest.len() implies {
        let (a2, l2, w2) = #[trigger] rest[j];
        a2 != 0 && l2 != 0 && a2 + l2 <= usize::MAX && region.start <= a2 && a2 + l2 <= region.end
    } by {
        assert(rest[j] == checks[j + 1]);
    }
    lemma_checks_reuse(after, rest, g, region, c.next as int);
}

/// The first region check after a nested scope is entered or left always
/// costs one query: nothing cached survives the change of scope.
pub proof fn first_check_after_a_scope_change_costs_one_query(
    c: CacheView,
    entering: bool,
    address: usize,
    length: usize,
    write: bool,
    q: Option<RegionQuery>,
)
    requires
        entering || c.depth > 0,
        address != 0,
        length != 0,
        address + length <= usize::MAX,
    ensures
        check_outcome(scope_change(c, entering), address, length, write, q).0.queries == counted(
            c.queries,
        ),
{
    nothing_kept_needs_a_query(scope_change(c, entering), address, length, write);
}

/// A check, a nested scope with one check, and a check after it returns
/// cost three queries: the nested scope starts fresh, and its return clears
/// what its parent had cached.
pub proof fn nested_scope_costs_three_queries(
    c: CacheView,
    address: usize,
    length: usize,
    write: bool,
    q: Option<RegionQuery>,
)
    requires
        c.depth > 0,
        all_empty(c.entries),
        c.queries + 3 <= u64::MAX,
        address != 0,
        length != 0,
        address + length <= usize::MAX,
    ensures
        ({
            let s1 = check_outcome(c, address, length, write, q).0;
            let s3 = check_outcome(scope_change(s1, true), address, length, write, q).0;
            let s5 = check_outcome(scope_change(s3, false), address, length, write, q).0;
            s5.queries == c.queries + 3 && s5.depth == c.depth
        }),
{
    nothing_kept_needs_a_query(c, address, length, write);
    let s1 = check_outcome(c, address, length, write, q).0;
    first_check_after_a_scope_change_costs_one_query(s1, true, address, length, write, q);
    let s3 = check_outcome(scope_change(s1, true), address, length, write, q).0;
    first_check_after_a_scope_change_costs_one_query(s3, false, address, length, write, q);
}

/// The slot a page's record is cached in.
pub open spec fn page_slot(start: usize, page_size: usize) -> int {
    ((start as int / page_size as int) % PAGE_ENTRIES as int)
}

/// The cached record of the page starting at `start`, if it is cached.
pub open spec fn cached_page(pages: Seq<Option<Region>>, start: usize, page_size: usize) -> Option<
    Region,
> {
    match pages[page_slot(start, page_size)] {
        Some(r) => if r.start == start {
            Some(r)
        } else {
            None
        },
        None => None,
    }
}

/// The start of the `i`-th page from `first`.
pub open spec fn page_start(first: usize, i: int, page_size: usize) -> usize {
    (first + i * page_size) as usize
}

/// The answer the cached pages give for `pages` pages from `first`, if all
/// are cached or one of the cached ones refuses.
pub open spec fn pages_answer(
    cache_pages: Seq<Option<Region>>,
    first: usize,
    pages: nat,
    page_size: usize,
    write: bool,
    i: nat,
) -> Option<bool>
    decreases pages - i,
{
    if i >= pages {
        Some(true)
    } else {
        match cached_page(cache_pages, page_start(first, i as int, page_size), page_size) {
            None => None,
            Some(r) => if !allows(r, write) {
                Some(false)
            } else {
                pages_answer(cache_pages, first, pages, page_size, write, i + 1)
            },
        }
    }
}

/// The region a query reports for `address..address + length`.
pub open spec fn queried_region(address: usize, length: usize, query: Option<RegionQuery>) -> Option<
    Region,
> {
    match query {
        Some(q) => spec_region_from_query(address, (address + length) as usize, q),
        None => None,
    }
}

/// The answer of a region check: the region's bounds when it allows the access.
pub open spec fn region_answer(region: Option<Region>, write: bool) -> Option<(usize, usize)> {
    match region {
        Some(reg) => if allows(reg, write) {
            Some((reg.start, reg.end))
        } else {
            None
        },
        None => None,
    }
}

/// The answer of a span check from the pages' working-set attributes.
pub open spec fn span_answer(attributes: Option<Seq<usize>>, pages: nat, write: bool) -> Option<bool> {
    match attributes {
        Some(flags) => if span_attributes_usable(flags, pages) {
            Some(span_allows(flags, pages, write))
        } else {
            None
        },
        None => None,
    }
}

/// Whether the page with working-set attributes `flags` allows the access.
pub open spec fn page_allows(flags: usize, write: bool) -> bool {
    if write {
        spec_permissions(page_protection(flags)).1
    } else {
        spec_permissions(page_protection(flags)).0
    }
}

/// One usable attribute word for each of the `pages` pages.
pub open spec fn span_attributes_usable(flags: Seq<usize>, pages: nat) -> bool {
    flags.len() == pages && forall|k: int|
        0 <= k < flags.len() ==> page_attributes_usable(#[trigger] flags[k])
}

/// Every one of the first `n` pages allows the access.
pub open spec fn span_allows(flags: Seq<usize>, n: nat, write: bool) -> bool {
    forall|k: int| 0 <= k < n ==> page_allows(#[trigger] flags[k], write)
}

/// The record of page `k` of a span, with the permissions its attribute
/// word gives.
pub open spec fn page_record(first: usize, k: int, page_size: usize, flags: usize) -> Region {
    let start = page_start(first, k, page_size);
    Region {
        start,
        end: (start + page_size) as usize,
        readable: spec_permissions(page_protection(flags)).0,
        writable: spec_permissions(page_protection(flags)).1,
    }
}

/// The page records after the first `n` pages of a span were recorded in
/// order, each in its slot.
pub open spec fn recorded_pages(
    pages: Seq<Option<Region>>,
    first: usize,
    page_size: usize,
    flags: Seq<usize>,
    n: nat,
) -> Seq<Option<Region>>
    decreases n,
{
    if n == 0 {
        pages
    } else {
        let k = n - 1;
        recorded_pages(pages, first, page_size, flags, k as nat).update(
            page_slot(page_start(first, k, page_size), page_size),
            Some(page_record(first, k, page_size, flags[k])),
        )
    }
}

impl Cache {
    /// No scope open and nothing cached.
    pub fn new() -> (c: Cache)
        ensures
            c@.depth == 0,
            c@.queries == 0,
            c@.entries.len() == REGION_ENTRIES,
            c@.next == 0,
            c@.pages.len() == PAGE_ENTRIES,
            all_empty(c@.entries),
            all_empty(c@.pages),
    {
        Cache {
            depth: 0,
            entries: [None; REGION_ENTRIES],
            next: 0,
            pages: [None; PAGE_ENTRIES],
            queries: 0,
        }
    }

    /// The number of operation scopes open on this thread.
    pub fn depth(&self) -> (d: usize)
        ensures
            d == self@.depth,
    {
        self.depth
    }

    fn clear(&mut self)
        ensures
            final(self)@.depth == old(self)@.depth,
            final(self)@.queries == old(self)@.queries,
            final(self)@.entries.len() == REGION_ENTRIES,
            final(self)@.next == 0,
            final(self)@.pages.len() == PAGE_ENTRIES,
            all_empty(final(self)@.entries),
            all_empty(final(self)@.pages),
    {
        self.entries = [None; REGION_ENTRIES];
        self.pages = [None; PAGE_ENTRIES];
        self.next = 0;
    }

    /// Opens a nested operation scope: it starts with nothing cached.
    pub fn enter(&mut self)
        requires
            old(self)@.depth < usize::MAX,
        ensures
            final(self)@.depth == old(self)@.depth + 1,
            final(self)@.queries == old(self)@.queries,
            final(self)@.entries.len() == REGION_ENTRIES,
            final(self)@.next == 0,
            final(self)@.pages.len() == PAGE_ENTRIES,
            all_empty(final(self)@.entries),
            all_empty(final(self)@.pages),
            final(self)@ == scope_change(old(self)@, true),
    {
        self.clear();
        self.depth = self.depth + 1;
        proof {
            assert(self@.entries =~= empty_slots(REGION_ENTRIES as nat));
            assert(self@.pages =~= empty_slots(PAGE_ENTRIES as nat));
        }
    }

    /// Closes an operation scope; its parent starts over with nothing cached.
    pub fn exit(&mut self)
        requires
            old(self)@.depth > 0,
        ensures
            final(self)@.depth == old(self)@.depth - 1,
            final(self)@.queries == old(self)@.queries,
            final(self)@.entries.len() == REGION_ENTRIES,
            final(self)@.next == 0,
            final(self)@.pages.len() == PAGE_ENTRIES,
            all_empty(final(self)@.entries),
            all_empty(final(self)@.pages),
            final(self)@ == scope_change(old(self)@, false),
    {
        self.clear();
        self.depth = self.depth - 1;
        proof {
            assert(self@.entries =~= empty_slots(REGION_ENTRIES as nat));
            assert(self@.pages =~= empty_slots(PAGE_ENTRIES as nat));
        }
    }

    fn find_region_exec(&self, address: usize, end: usize) -> (r: Option<Region>)
        ensures
            r == find_region(self@.entries, address, end, 0),
    {
        let mut i: usize = 0;
        while i < REGION_ENTRIES
            invariant
                0 <= i <= REGION_ENTRIES,
                self.entries@.len() == REGION_ENTRIES,
                find_region(self@.entries, address, end, 0) == find_region(
                    self@.entries,
                    address,
                    end,
                    i as nat,
                ),
            decreases REGION_ENTRIES - i,
        {
            match self.entries[i] {
                Some(r) => {
                    if address >= r.start && end <= r.end {
                        return Some(r);
                    }
                },
                None => {},
            }
            i = i + 1;
        }
        None
    }

    /// The answer a scope's cached regions give for a region check, if any:
    /// a cached region holding the range answers with its permission.
    pub fn cached_region(&self, address: usize, length: usize, write: bool) -> (r: Option<
        Option<(usize, usize)>,
    >)
        ensures
            (address == 0 || length == 0 || address + length > usize::MAX) ==> r == Some(
                None::<(usize, usize)>,
            ),
            !(address == 0 || length == 0 || address + length > usize::MAX) ==> match find_region(
                self@.entries,
                address,
                (address + length) as usize,
                0,
            ) {
                Some(region) => self@.depth > 0 ==> r == Some(
                    if allows(region, write) {
                        Some((region.start, region.end))
                    } else {
                        None
                    },
                ),
                None => r is None,
            },
            !(address == 0 || length == 0 || address + length > usize::MAX) && self@.depth == 0
                ==> r is None,
            r == spec_cached_answer(self@, address, length, write),
    {
        if address == 0 || length == 0 {
            return Some(None);
        }
        let end = match address.checked_add(length) {
            Some(end) => end,
            None => return Some(None),
        };
        if self.depth == 0 {
            return None;
        }
        match self.find_region_exec(address, end) {
            Some(region) => Some(
                if (if write {
                    region.writable
                } else {
                    region.readable
                }) {
                    Some((region.start, region.end))
                } else {
                    None
                },
            ),
            None => None,
        }
    }

    fn record_region(&mut self, region: Region)
        ensures
            final(self)@.depth == old(self)@.depth,
            final(self)@.queries == old(self)@.queries,
            final(self)@.pages == old(self)@.pages,
            old(self)@.depth == 0 ==> final(self)@.entries == old(self)@.entries && final(self)@.next
                == old(self)@.next,
            old(self)@.depth > 0 ==> final(self)@.entries == old(self)@.entries.update(
                old(self)@.next as int,
                Some(region),
            ) && final(self)@.next == (old(self)@.next + 1) % (REGION_ENTRIES as nat),
    {
        if self.depth > 0 {
            let index = self.next % REGION_ENTRIES;
            let ghost before = self@.entries;
            self.entries[index] = Some(region);
            assert(self@.entries == before.update(index as int, Some(region)));
            self.next = (index + 1) % REGION_ENTRIES;
        }
    }

    /// Completes a region check with the operating system's answer for the
    /// region holding `address`: the region is recorded for this scope and
    /// its bounds are returned when it holds the range with the permission.
    pub fn region_after_query(
        &mut self,
        address: usize,
        length: usize,
        write: bool,
        query: Option<RegionQuery>,
    ) -> (r: Option<(usize, usize)>)
        requires
            address != 0,
            length != 0,
            address + length <= usize::MAX,
        ensures
            final(self)@.depth == old(self)@.depth,
            final(self)@.pages == old(self)@.pages,
            final(self)@.queries == counted(old(self)@.queries),
            r == region_answer(queried_region(address, length, query), write),
            queried_region(address, length, query) is None || old(self)@.depth == 0
                ==> final(self)@.entries == old(self)@.entries && final(self)@.next == old(self)@.next,
            queried_region(address, length, query) is Some && old(self)@.depth > 0
                ==> final(self)@.entries == old(self)@.entries.update(
                old(self)@.next as int,
                queried_region(address, length, query),
            ) && final(self)@.next == (old(self)@.next + 1) % (REGION_ENTRIES as nat),
    {
        let end = address + length;
        let region = match query {
            Some(q) => region_from_query(address, end, q),
            None => None,
        };
        let answer = match region {
            Some(reg) => {
                self.record_region(reg);
                if (if write {
                    reg.writable
                } else {
                    reg.readable
                }) {
                    Some((reg.start, reg.end))
                } else {
                    None
                }
            },
            None => None,
        };
        self.queries = self.queries.saturating_add(1);
        answer
    }

    /// A whole region check: answered from the scope's cached regions when
    /// they can, else by one query of the region holding `address`, whose
    /// answer is recorded for this scope. A cached answer changes nothing
    /// and costs no query; every other check costs exactly one.
    pub fn region_check(
        &mut self,
        address: usize,
        length: usize,
        write: bool,
        query: &impl Fn(usize) -> Option<RegionQuery>,
    ) -> (r: Option<(usize, usize)>)
        requires
            forall|a: usize| query.requires((a,)),
        ensures
            forall|g: spec_fn(usize) -> Option<RegionQuery>|
                queries_as(*query, g) ==> (final(self)@, r) == check_outcome(
                    old(self)@,
                    address,
                    length,
                    write,
                    g(address),
                ),
            spec_cached_answer(old(self)@, address, length, write) matches Some(answer) ==> r == answer
                && final(self)@ == old(self)@,
            spec_cached_answer(old(self)@, address, length, write) is None ==> exists|
                q: Option<RegionQuery>,
            |
                {
                    &&& #[trigger] query.ensures((address,), q)
                    &&& r == region_answer(queried_region(address, length, q), write)
                    &&& final(self)@.queries == counted(old(self)@.queries)
                    &&& final(self)@.depth == old(self)@.depth
                    &&& final(self)@.pages == old(self)@.pages
                    &&& (queried_region(address, length, q) is None || old(self)@.depth == 0
                        ==> final(self)@.entries == old(self)@.entries && final(self)@.next
                        == old(self)@.next)
                    &&& (queried_region(address, length, q) is Some && old(self)@.depth > 0
                        ==> final(self)@.entries == old(self)@.entries.update(
                        old(self)@.next as int,
                        queried_region(address, length, q),
                    ) && final(self)@.next == (old(self)@.next + 1) % (REGION_ENTRIES as nat))
                },
    {
        match self.cached_region(address, length, write) {
            Some(answer) => answer,
            None => {
                let q = query(address);
                self.region_after_query(address, length, write, q)
            },
        }
    }

    fn cached_page_exec(&self, start: usize, page_size: usize) -> (r: Option<Region>)
        requires
            page_size > 0,
        ensures
            r == cached_page(self@.pages, start, page_size),
    {
        match self.pages[(start / page_size) % PAGE_ENTRIES] {
            Some(reg) => if reg.start == start {
                Some(reg)
            } else {
                None
            },
            None => None,
        }
    }

    /// Decides how a span check proceeds: refused spans are answered at
    /// once; a page size that is not a power of two, or more than 64 pages,
    /// uses the region path; inside a scope, a cached region holding the
    /// span, or cached records of all its pages, answer without a query.
    pub fn span_plan(&self, address: usize, length: usize, write: bool, page_size: usize) -> (plan:
        SpanPlan)
        ensures
            (address == 0 || length == 0 || address + length > usize::MAX) ==> plan
                == SpanPlan::Answer(false),
            !(address == 0 || length == 0 || address + length > usize::MAX) ==> {
                let end = (address + length) as usize;
                let (first, pages) = span_pages(address, end, page_size);
                if !spec_power_of_two(page_size) || pages > MAX_SPAN_PAGES {
                    plan == SpanPlan::Region
                } else if self@.depth == 0 {
                    plan == (SpanPlan::Pages { first, pages })
                } else {
                    match find_region(self@.entries, address, end, 0) {
                        Some(region) => plan == SpanPlan::Answer(allows(region, write)),
                        None => match pages_answer(
                            self@.pages,
                            first,
                            pages as nat,
                            page_size,
                            write,
                            0,
                        ) {
                            Some(b) => plan == SpanPlan::Answer(b),
                            None => plan == (SpanPlan::Pages { first, pages }),
                        },
                    }
                }
            },
            plan matches SpanPlan::Pages { first, pages } ==> pages_fit(
                first,
                pages,
                page_size,
                (address + length) as usize,
            ) && pages <= MAX_SPAN_PAGES,
    {
        if address == 0 || length == 0 {
            return SpanPlan::Answer(false);
        }
        let end = match address.checked_add(length) {
            Some(end) => end,
            None => return SpanPlan::Answer(false),
        };
        if page_size == 0 || page_size & (page_size - 1) != 0 {
            return SpanPlan::Region;
        }
        let first = address & !(page_size - 1);
        proof {
            lemma_page_base_below(address, page_size);
        }
        let pages = (end - 1 - first) / page_size + 1;
        if pages > MAX_SPAN_PAGES {
            return SpanPlan::Region;
        }
        proof {
            assert(first + (pages - 1) * page_size < end) by (nonlinear_arith)
                requires
                    pages == (end - 1 - first) / (page_size as int) + 1,
                    page_size > 0,
                    first < end,
            ;
        }
        if self.depth == 0 {
            return SpanPlan::Pages { first, pages };
        }
        match self.find_region_exec(address, end) {
            Some(region) => {
                return SpanPlan::Answer(
                    if write {
                        region.writable
                    } else {
                        region.readable
                    },
                );
            },
            None => {},
        }
        let mut i: usize = 0;
        while i < pages
            invariant
                0 <= i <= pages <= MAX_SPAN_PAGES,
                page_size > 0,
                first + (pages - 1) * page_size < end,
                self.pages@.len() == PAGE_ENTRIES,
                address != 0,
                length != 0,
                end == address + length,
                first == span_pages(address, end, page_size).0,
                pages == span_pages(address, end, page_size).1,
                spec_power_of_two(page_size),
                self@.depth > 0,
                find_region(self@.entries, address, end, 0) is None,
                pages_answer(self@.pages, first, pages as nat, page_size, write, 0) == pages_answer(
                    self@.pages,
                    first,
                    pages as nat,
                    page_size,
                    write,
                    i as nat,
                ),
            decreases pages - i,
        {
            proof {
                assert(first + i * page_size <= first + (pages - 1) * page_size) by (nonlinear_arith)
                    requires
                        i < pages,
                        page_size > 0,
                ;
            }
            let start = first + i * page_size;
            match self.cached_page_exec(start, page_size) {
                None => {
                    return SpanPlan::Pages { first, pages };
                },
                Some(region) => {
                    if !(if write {
                        region.writable
                    } else {
                        region.readable
                    }) {
                        return SpanPlan::Answer(false);
                    }
                },
            }
            i = i + 1;
        }
        SpanPlan::Answer(true)
    }

    /// Completes a span check with the working-set attributes of its pages:
    /// `None` (use the region path) when the query failed or a page is not
    /// resident or is bad; otherwise whether every page allows the access,
    /// recording each page for this scope.
    pub fn span_after_query(
        &mut self,
        first: usize,
        pages: usize,
        page_size: usize,
        write: bool,
        attributes: Option<Vec<usize>>,
    ) -> (r: Option<bool>)
        requires
            1 <= pages,
            page_size > 0,
            first + pages * page_size <= usize::MAX,
        ensures
            final(self)@.queries == counted(old(self)@.queries),
            final(self)@.depth == old(self)@.depth,
            final(self)@.entries == old(self)@.entries,
            final(self)@.next == old(self)@.next,
            r == span_answer(
                match attributes {
                    Some(f) => Some(f@),
                    None => None,
                },
                pages as nat,
                write,
            ),
            r is None || old(self)@.depth == 0 ==> final(self)@.pages == old(self)@.pages,
            r is Some && old(self)@.depth > 0 ==> final(self)@.pages == recorded_pages(
                old(self)@.pages,
                first,
                page_size,
                attributes->0@,
                pages as nat,
            ),
            r is Some && old(self)@.depth > 0 ==> forall|k: int|
                0 <= k < pages ==> #[trigger] cached_page(
                    final(self)@.pages,
                    page_start(first, k, page_size),
                    page_size,
                ) is Some || exists|l: int|
                    k < l < pages && page_slot(page_start(first, l, page_size), page_size)
                        == page_slot(page_start(first, k, page_size), page_size),
    {
        self.queries = self.queries.saturating_add(1);
        let flags = match attributes {
            Some(flags) => flags,
            None => return None,
        };
        if flags.len() != pages {
            return None;
        }
        let mut k: usize = 0;
        while k < pages
            invariant
                0 <= k <= pages,
                flags@.len() == pages,
                attributes == Some(flags),
                self@.depth == old(self)@.depth,
                self@.entries == old(self)@.entries,
                self@.next == old(self)@.next,
                self@.pages == old(self)@.pages,
                self@.queries == counted(old(self)@.queries),
                forall|j: int| 0 <= j < k ==> page_attributes_usable(#[trigger] flags@[j]),
            decreases pages - k,
        {
            if flags[k] & 1 == 0 || flags[k] & 0x8000_0000 != 0 {
                assert(!page_attributes_usable(flags@[k as int]));
                assert(!span_attributes_usable(flags@, pages as nat));
                return None;
            }
            k = k + 1;
        }
        let ghost before = self@;
        let mut allowed = true;
        let mut i: usize = 0;
        while i < pages
            invariant
                0 <= i <= pages,
                flags@.len() == pages,
                page_size > 0,
                first + pages * page_size <= usize::MAX,
                self@.depth == before.depth,
                self@.entries == before.entries,
                self@.next == before.next,
                self@.queries == before.queries,
                self@.pages.len() == PAGE_ENTRIES,
                before.depth == 0 ==> self@.pages == before.pages,
                before.depth > 0 ==> self@.pages == recorded_pages(
                    before.pages,
                    first,
                    page_size,
                    flags@,
                    i as nat,
                ),
                allowed == span_allows(flags@, i as nat, write),
                before.depth > 0 ==> forall|k: int|
                    0 <= k < i ==> #[trigger] cached_page(
                        self@.pages,
                        page_start(first, k, page_size),
                        page_size,
                    ) is Some || exists|l: int|
                        k < l < i && page_slot(page_start(first, l, page_size), page_size)
                            == page_slot(page_start(first, k, page_size), page_size),
            decreases pages - i,
        {
            proof {
                assert((i + 1) * page_size <= pages * page_size) by (nonlinear_arith)
                    requires
                        i < pages,
                        page_size > 0,
                ;
                assert((i + 1) * page_size == i * page_size + page_size) by (nonlinear_arith);
            }
            let start = first + i * page_size;
            // Working-set protection occupies bits 4..14 once the valid bit is set.
            let protection = ((flags[i] >> 4usize) & 0x7ff) as u32;
            let (readable, writable) = permissions(protection);
            allowed = allowed && (if write {
                writable
            } else {
                readable
            });
            let ghost prior = self@.pages;
            if self.depth > 0 {
                let index = (start / page_size) % PAGE_ENTRIES;
                self.pages[index] = Some(
                    Region { start, end: start + page_size, readable, writable },
                );
                proof {
                    assert(start == page_start(first, i as int, page_size));
                    assert(index as int == page_slot(start, page_size));
                    assert(self@.pages =~= recorded_pages(
                        before.pages,
                        first,
                        page_size,
                        flags@,
                        (i + 1) as nat,
                    ));
                    assert forall|k: int|
                        0 <= k < i + 1 implies #[trigger] cached_page(
                        self@.pages,
                        page_start(first, k, page_size),
                        page_size,
                    ) is Some || exists|l: int|
                        k < l < i + 1 && page_slot(page_start(first, l, page_size), page_size)
                            == page_slot(page_start(first, k, page_size), page_size) by {
                        if k < i {
                            let sk = page_slot(page_start(first, k, page_size), page_size);
                            if sk == index as int {
                                assert(page_slot(page_start(first, i as int, page_size), page_size)
                                    == sk);
                            } else {
                                assert(self@.pages[sk] == prior[sk]);
                                if cached_page(prior, page_start(first, k, page_size), page_size) is None {
                                    let l = choose|l: int|
                                        k < l < i && page_slot(page_start(first, l, page_size), page_size)
                                            == page_slot(page_start(first, k, page_size), page_size);
                                    assert(k < l < i + 1);
                                }
                            }
                        } else {
                            assert(k == i);
                            assert(page_start(first, k, page_size) == start);
                        }
                    }
                }
            }
            i = i + 1;
        }
        Some(allowed)
    }
}

/// The operating-system queries made on this thread so far.
pub fn query_count(cache: &Cache) -> (n: u64)
    ensures
        n == cache@.queries,
{
    cache.queries
}

/// Runs `operation` in a fresh nested scope: it starts with nothing cached,
/// and when it returns its parent starts over with nothing cached too.
pub fn scoped<T, F: FnOnce(Cache) -> (Cache, T)>(cache: &mut Cache, operation: F) -> (r: T)
    requires
        old(cache)@.depth < usize::MAX,
        forall|inner: Cache|
            inner@.depth == old(cache)@.depth + 1 ==> call_requires(operation, (inner,)),
        forall|inner: Cache, out: (Cache, T)|
            call_ensures(operation, (inner,), out) ==> out.0@.depth == inner@.depth,
    ensures
        final(cache)@.depth == old(cache)@.depth,
        all_empty(final(cache)@.entries),
        all_empty(final(cache)@.pages),
        exists|inner: Cache, out: (Cache, T)|
            {
                &&& inner@.depth == old(cache)@.depth + 1
                &&& inner@.queries == old(cache)@.queries
                &&& all_empty(inner@.entries)
                &&& all_empty(inner@.pages)
                &&& call_ensures(operation, (inner,), out)
                &&& r == out.1
                &&& final(cache)@.queries == out.0@.queries
            },
{
    let mut inner = Cache::new();
    std::mem::swap(&mut inner, cache);
    inner.enter();
    let ghost entered = inner;
    let (returned, result) = operation(inner);
    let ghost out = (returned, result);
    *cache = returned;
    cache.exit();
    proof {
        assert(call_ensures(operation, (entered,), out));
    }
    result
}


/// `PAGE_READONLY`.
pub const PAGE_READONLY: u32 = 0x02;
/// `PAGE_READWRITE`.
pub const PAGE_READWRITE: u32 = 0x04;
/// `PAGE_WRITECOPY`.
pub const PAGE_WRITECOPY: u32 = 0x08;
/// `PAGE_EXECUTE`.
pub const PAGE_EXECUTE: u32 = 0x10;
/// `PAGE_EXECUTE_READ`.
pub const PAGE_EXECUTE_READ: u32 = 0x20;
/// `PAGE_EXECUTE_READWRITE`.
pub const PAGE_EXECUTE_READWRITE: u32 = 0x40;
/// `PAGE_EXECUTE_WRITECOPY`.
pub const PAGE_EXECUTE_WRITECOPY: u32 = 0x80;
/// `PAGE_GUARD`.
pub const PAGE_GUARD: u32 = 0x100;

/// A guard page allows nothing. Otherwise a protection is writable exactly
/// when its base value is read-write, write-copy, execute-read-write or
/// execute-write-copy, and readable exactly when its base value is one of
/// those or read-only, execute or execute-read; modifier bits above the
/// base value (no-cache, write-combine) change neither.
pub proof fn protections_grant_what_they_name(protection: u32)
    ensures
        protection & PAGE_GUARD != 0 ==> !spec_permissions(protection).0 && !spec_permissions(
            protection,
        ).1,
        protection & PAGE_GUARD == 0 ==> (spec_permissions(protection).1 <==> {
            let base = protection & 0xff;
            base == PAGE_READWRITE || base == PAGE_WRITECOPY || base == PAGE_EXECUTE_READWRITE
                || base == PAGE_EXECUTE_WRITECOPY
        }),
        protection & PAGE_GUARD == 0 ==> (spec_permissions(protection).0 <==> {
            let base = protection & 0xff;
            base == PAGE_READONLY || base == PAGE_READWRITE || base == PAGE_WRITECOPY || base
                == PAGE_EXECUTE || base == PAGE_EXECUTE_READ || base == PAGE_EXECUTE_READWRITE
                || base == PAGE_EXECUTE_WRITECOPY
        }),
{
}

} // verus!
