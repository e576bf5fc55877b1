//! First-fit block allocator over a span of addresses.
//!
//! The allocator keeps two lists of blocks, both ordered by base address:
//! the blocks that are free and the blocks that were granted. Together they
//! tile the span, and no two free blocks touch.

use crate::error::Error;
use crate::memory::MemInfo;
use vstd::prelude::*;

verus! {

/// Sum of the sizes of the blocks in `s`.
pub open spec fn total(s: Seq<MemInfo>) -> int
    decreases s.len(),
{
    if s.len() == 0 {
        0
    } else {
        total(s.drop_last()) + s.last().size
    }
}

/// Every block is non-empty and lies inside `span`.
pub open spec fn within(s: Seq<MemInfo>, span: MemInfo) -> bool {
    forall|i: int|
        0 <= i < s.len() ==> (#[trigger] s[i]).size > 0 && span.base <= s[i].base && s[i].end()
            <= span.end()
}

/// Blocks are in address order and do not overlap.
pub open spec fn ordered(s: Seq<MemInfo>) -> bool {
    forall|i: int, j: int| 0 <= i < j < s.len() ==> (#[trigger] s[i]).end() <= (#[trigger] s[j]).base
}

/// Blocks are in address order and no block ends where a later one begins.
pub open spec fn separated(s: Seq<MemInfo>) -> bool {
    forall|i: int, j: int| 0 <= i < j < s.len() ==> (#[trigger] s[i]).end() < (#[trigger] s[j]).base
}

/// No block of `a` shares an address with a block of `b`.
pub open spec fn apart(a: Seq<MemInfo>, b: Seq<MemInfo>) -> bool {
    forall|i: int, j: int|
        0 <= i < a.len() && 0 <= j < b.len() ==> (#[trigger] a[i]).disjoint(#[trigger] b[j])
}

/// Whether `n` is a power of two.
pub open spec fn is_power_of_two(n: u64) -> bool {
    n != 0 && n & ((n - 1) as u64) == 0
}

/// The least multiple of `align` that is at least `base`.
pub open spec fn align_up(base: int, align: int) -> int {
    if base % align == 0 {
        base
    } else {
        base + align - base % align
    }
}

/// Whether `block` can hold `size` bytes at a base that is a multiple of `align`.
pub open spec fn fits(block: MemInfo, size: u64, align: u64) -> bool {
    align_up(block.base as int, align as int) + size <= block.end()
}

/// What is left of `block` once `granted` is carved out of it, in address order.
pub open spec fn remainders(block: MemInfo, granted: MemInfo) -> Seq<MemInfo> {
    let front = if block.base < granted.base {
        seq![MemInfo { base: block.base, size: (granted.base - block.base) as u64 }]
    } else {
        Seq::empty()
    };
    let back = if granted.end() < block.end() {
        seq![MemInfo { base: granted.end() as u64, size: (block.end() - granted.end()) as u64 }]
    } else {
        Seq::empty()
    };
    front + back
}

/// Whether `p` is the place of `info` among the free blocks: all blocks before
/// `p` end at or below it, all blocks from `p` on begin at or above its end.
pub open spec fn gap_at(free: Seq<MemInfo>, info: MemInfo, p: int) -> bool {
    &&& 0 <= p <= free.len()
    &&& forall|i: int| 0 <= i < p ==> (#[trigger] free[i]).end() <= info.base
    &&& forall|i: int| p <= i < free.len() ==> info.end() <= (#[trigger] free[i]).base
}

/// Whether the free block before place `p` ends where `info` begins.
pub open spec fn joins_left(free: Seq<MemInfo>, info: MemInfo, p: int) -> bool {
    p > 0 && free[p - 1].end() == info.base
}

/// Whether the free block at place `p` begins where `info` ends.
pub open spec fn joins_right(free: Seq<MemInfo>, info: MemInfo, p: int) -> bool {
    p < free.len() && free[p].base == info.end()
}

/// The free list after `info` is returned at place `p` and merged with the
/// neighbours that touch it.
pub open spec fn coalesce(free: Seq<MemInfo>, info: MemInfo, p: int) -> Seq<MemInfo> {
    let lo = if joins_left(free, info, p) { free[p - 1].base as int } else { info.base as int };
    let hi = if joins_right(free, info, p) { free[p].end() } else { info.end() };
    let from = if joins_left(free, info, p) { p - 1 } else { p };
    let to = if joins_right(free, info, p) { p + 1 } else { p };
    free.subrange(0, from) + seq![MemInfo { base: lo as u64, size: (hi - lo) as u64 }]
        + free.subrange(to, free.len() as int)
}

/// The total of two lists joined is the sum of their totals.
pub proof fn lemma_total_concat(a: Seq<MemInfo>, b: Seq<MemInfo>)
    ensures
        total(a + b) == total(a) + total(b),
    decreases b.len(),
{
    if b.len() == 0 {
        assert(a + b =~= a);
    } else {
        lemma_total_concat(a, b.drop_last());
        assert((a + b).drop_last() =~= a + b.drop_last());
        assert((a + b).last() == b.last());
    }
}

/// The total of one block is its size.
pub proof fn lemma_total_one(x: MemInfo)
    ensures
        total(seq![x]) == x.size,
{
    assert(seq![x].drop_last() =~= Seq::<MemInfo>::empty());
    assert(total(seq![x].drop_last()) == 0);
}

/// A list splits its total between its two parts.
pub proof fn lemma_total_split(s: Seq<MemInfo>, k: int)
    requires
        0 <= k <= s.len(),
    ensures
        total(s) == total(s.subrange(0, k)) + total(s.subrange(k, s.len() as int)),
{
    lemma_total_concat(s.subrange(0, k), s.subrange(k, s.len() as int));
    assert(s.subrange(0, k) + s.subrange(k, s.len() as int) =~= s);
}

/// A block that joins a list adds its size to the total.
pub proof fn lemma_total_insert(s: Seq<MemInfo>, k: int, x: MemInfo)
    requires
        0 <= k <= s.len(),
    ensures
        total(s.insert(k, x)) == total(s) + x.size,
{
    let a = s.subrange(0, k);
    let b = s.subrange(k, s.len() as int);
    lemma_total_split(s, k);
    lemma_total_one(x);
    lemma_total_concat(a, seq![x]);
    lemma_total_concat(a + seq![x], b);
    assert(s.insert(k, x) =~= a + seq![x] + b);
}

/// A block that leaves a list takes its size off the total.
pub proof fn lemma_total_remove(s: Seq<MemInfo>, k: int)
    requires
        0 <= k < s.len(),
    ensures
        total(s.remove(k)) == total(s) - s[k].size,
{
    let r = s.remove(k);
    assert(r.insert(k, s[k]) =~= s);
    lemma_total_insert(r, k, s[k]);
}

/// No total is negative.
pub proof fn lemma_total_nonnegative(s: Seq<MemInfo>)
    ensures
        total(s) >= 0,
    decreases s.len(),
{
    if s.len() > 0 {
        lemma_total_nonnegative(s.drop_last());
    }
}

/// The aligned base is a multiple of `align` and less than `align` above `base`.
pub proof fn lemma_align_up(base: int, align: int)
    requires
        base >= 0,
        align > 0,
    ensures
        align_up(base, align) % align == 0,
        base <= align_up(base, align) < base + align,
{
    if base % align != 0 {
        vstd::arithmetic::div_mod::lemma_fundamental_div_mod(base, align);
        let q = base / align;
        assert(align_up(base, align) == (q + 1) * align) by (nonlinear_arith)
            requires
                base == align * q + base % align,
                align_up(base, align) == base + align - base % align,
        ;
        vstd::arithmetic::div_mod::lemma_mod_multiples_basic(q + 1, align);
    }
}

/// The free list with the block at `i` replaced by what `info` leaves of it.
pub open spec fn carve(free: Seq<MemInfo>, i: int, info: MemInfo) -> Seq<MemInfo> {
    free.subrange(0, i) + remainders(free[i], info) + free.subrange(i + 1, free.len() as int)
}

/// Carving a block out of a free block keeps the free list in order, apart
/// from the granted blocks, and lowers its total by the block's size.
pub proof fn lemma_carve(free: Seq<MemInfo>, granted: Seq<MemInfo>, span: MemInfo, i: int, info: MemInfo)
    requires
        span.end() <= u64::MAX,
        within(free, span),
        separated(free),
        apart(free, granted),
        0 <= i < free.len(),
        info.size > 0,
        free[i].base <= info.base,
        info.end() <= free[i].end(),
    ensures
        within(carve(free, i, info), span),
        separated(carve(free, i, info)),
        apart(carve(free, i, info), granted),
        total(carve(free, i, info)) == total(free) - info.size,
        forall|y: int| 0 <= y < granted.len() ==> (#[trigger] granted[y]).disjoint(info),
        forall|x: int|
            0 <= x < carve(free, i, info).len() ==> (#[trigger] carve(free, i, info)[x]).disjoint(info),
{
    let block = free[i];
    let r = remainders(block, info);
    let a = free.subrange(0, i);
    let b = free.subrange(i + 1, free.len() as int);
    let f = carve(free, i, info);
    assert forall|x: int| 0 <= x < r.len() implies (#[trigger] r[x]).size > 0 && block.base
        <= r[x].base && r[x].end() <= block.end() && r[x].disjoint(info) by {}
    assert forall|x: int, y: int| 0 <= x < y < r.len() implies (#[trigger] r[x]).end() < (
    #[trigger] r[y]).base by {}
    assert forall|x: int| 0 <= x < f.len() implies (if x < i {
        #[trigger] f[x] == free[x]
    } else if x < i + r.len() {
        f[x] == r[x - i]
    } else {
        f[x] == free[x - r.len() + 1]
    }) by {}
    assert forall|x: int| 0 <= x < f.len() implies (#[trigger] f[x]).disjoint(info) by {
        if x < i {
            assert(free[x].end() < free[i].base);
        } else if x >= i + r.len() {
            assert(free[i].end() < free[x - r.len() + 1].base);
        }
    }
    assert(within(f, span));
    assert forall|x: int, y: int| 0 <= x < y < f.len() implies (#[trigger] f[x]).end() < (
    #[trigger] f[y]).base by {
        if x < i && y >= i + r.len() {
            assert(free[x].end() < free[y - r.len() + 1].base);
        } else if x < i {
            assert(free[x].end() < free[i].base);
        } else if y >= i + r.len() && x < i + r.len() {
            assert(free[i].end() < free[y - r.len() + 1].base);
        } else if y >= i + r.len() {
            assert(free[x - r.len() + 1].end() < free[y - r.len() + 1].base);
        } else {
            assert(r[x - i].end() < r[y - i].base);
        }
    }
    assert forall|x: int, y: int| 0 <= x < f.len() && 0 <= y < granted.len() implies (
    #[trigger] f[x]).disjoint(#[trigger] granted[y]) by {
        if x < i {
            assert(free[x].disjoint(granted[y]));
        } else if x >= i + r.len() {
            assert(free[x - r.len() + 1].disjoint(granted[y]));
        } else {
            assert(free[i].disjoint(granted[y]));
        }
    }
    assert forall|y: int| 0 <= y < granted.len() implies (#[trigger] granted[y]).disjoint(
        info,
    ) by {
        assert(free[i].disjoint(granted[y]));
    }
    lemma_total_split(free, i);
    lemma_total_split(free.subrange(i, free.len() as int), 1);
    assert(free.subrange(i, free.len() as int).subrange(0, 1) =~= seq![block]);
    assert(free.subrange(i, free.len() as int).subrange(1, free.len() - i) =~= b);
    lemma_total_one(block);
    lemma_total_concat(a, r);
    lemma_total_concat(a + r, b);
    if block.base < info.base && info.end() < block.end() {
        let x = r[0];
        let y = r[1];
        assert(r =~= seq![x] + seq![y]);
        lemma_total_concat(seq![x], seq![y]);
        lemma_total_one(x);
        lemma_total_one(y);
    } else if r.len() == 1 {
        assert(r =~= seq![r[0]]);
        lemma_total_one(r[0]);
    } else {
        assert(r =~= Seq::<MemInfo>::empty());
    }
}

/// Recording a block among the granted ones, at its place in address order,
/// keeps that list in order and raises its total by the block's size.
pub proof fn lemma_record(free: Seq<MemInfo>, granted: Seq<MemInfo>, span: MemInfo, k: int, info: MemInfo)
    requires
        within(granted, span),
        ordered(granted),
        apart(free, granted),
        0 <= k <= granted.len(),
        info.size > 0,
        span.base <= info.base,
        info.end() <= span.end(),
        forall|j: int| 0 <= j < k ==> (#[trigger] granted[j]).base < info.base,
        k < granted.len() ==> granted[k].base >= info.base,
        forall|y: int| 0 <= y < granted.len() ==> (#[trigger] granted[y]).disjoint(info),
        forall|x: int| 0 <= x < free.len() ==> (#[trigger] free[x]).disjoint(info),
    ensures
        within(granted.insert(k, info), span),
        ordered(granted.insert(k, info)),
        apart(free, granted.insert(k, info)),
        total(granted.insert(k, info)) == total(granted) + info.size,
{
    let g = granted.insert(k, info);
    lemma_total_insert(granted, k, info);
    assert forall|y: int| 0 <= y < g.len() implies (if y < k {
        #[trigger] g[y] == granted[y] && granted[y].end() <= info.base
    } else if y == k {
        g[y] == info
    } else {
        g[y] == granted[y - 1] && info.end() <= granted[y - 1].base
    }) by {
        if y < k {
            assert(granted[y].disjoint(info));
        } else if y > k {
            assert(granted[y - 1].disjoint(info));
            if k < y - 1 {
                assert(granted[k].end() <= granted[y - 1].base);
            }
        }
    }
    assert forall|x: int, y: int| 0 <= x < y < g.len() implies (#[trigger] g[x]).end() <= (
    #[trigger] g[y]).base by {
        if x < k && y < k {
            assert(granted[x].end() <= granted[y].base);
        } else if x > k {
            assert(granted[x - 1].end() <= granted[y - 1].base);
        } else if x < k && y > k {
            assert(granted[x].end() <= info.base);
        }
    }
    assert forall|x: int, y: int| 0 <= x < free.len() && 0 <= y < g.len() implies (
    #[trigger] free[x]).disjoint(#[trigger] g[y]) by {
        if y < k {
            assert(free[x].disjoint(granted[y]));
        } else if y > k {
            assert(free[x].disjoint(granted[y - 1]));
        }
    }
}

/// Returning a granted block to the free list at its place, merged with the
/// neighbours that touch it, keeps the free list in order with no two blocks
/// touching, apart from the blocks still granted, and raises its total by the
/// block's size.
pub proof fn lemma_coalesce(free: Seq<MemInfo>, granted: Seq<MemInfo>, span: MemInfo, p: int, info: MemInfo)
    requires
        span.end() <= u64::MAX,
        within(free, span),
        within(granted, span),
        separated(free),
        apart(free, granted),
        gap_at(free, info, p),
        info.size > 0,
        span.base <= info.base,
        info.end() <= span.end(),
        forall|y: int| 0 <= y < granted.len() ==> (#[trigger] granted[y]).disjoint(info),
    ensures
        within(coalesce(free, info, p), span),
        separated(coalesce(free, info, p)),
        apart(coalesce(free, info, p), granted),
        total(coalesce(free, info, p)) == total(free) + info.size,
{
    let c = coalesce(free, info, p);
    let l = joins_left(free, info, p);
    let r = joins_right(free, info, p);
    let from = if l { p - 1 } else { p };
    let to = if r { p + 1 } else { p };
    let lo = if l { free[p - 1].base as int } else { info.base as int };
    let hi = if r { free[p].end() } else { info.end() };
    let merged = MemInfo { base: lo as u64, size: (hi - lo) as u64 };
    let a = free.subrange(0, from);
    let b = free.subrange(to, free.len() as int);
    assert(merged.base == lo && merged.end() == hi);
    assert forall|x: int| 0 <= x < c.len() implies (if x < from {
        #[trigger] c[x] == free[x]
    } else if x == from {
        c[x] == merged
    } else {
        c[x] == free[x - 1 + to - from]
    }) by {}
    assert(within(c, span));
    assert forall|x: int, y: int| 0 <= x < y < c.len() implies (#[trigger] c[x]).end() < (
    #[trigger] c[y]).base by {
        if y < from {
            assert(free[x].end() < free[y].base);
        } else if x > from {
            assert(free[x - 1 + to - from].end() < free[y - 1 + to - from].base);
        } else if x < from && y > from {
            assert(free[x].end() < free[y - 1 + to - from].base);
        } else if x < from {
            if l {
                assert(free[x].end() < free[p - 1].base);
            } else {
                assert(free[x].end() <= info.base);
            }
        } else {
            if r {
                assert(free[p].end() < free[y - 1 + to - from].base);
            } else {
                assert(info.end() <= free[y - 1 + to - from].base);
            }
        }
    }
    assert forall|x: int, y: int| 0 <= x < c.len() && 0 <= y < granted.len() implies (
    #[trigger] c[x]).disjoint(#[trigger] granted[y]) by {
        if x < from {
            assert(free[x].disjoint(granted[y]));
        } else if x > from {
            assert(free[x - 1 + to - from].disjoint(granted[y]));
        } else {
            assert(granted[y].disjoint(info));
            if l {
                assert(free[p - 1].disjoint(granted[y]));
            }
            if r {
                assert(free[p].disjoint(granted[y]));
            }
        }
    }
    lemma_total_split(free, from);
    lemma_total_split(free.subrange(from, free.len() as int), to - from);
    let mid = free.subrange(from, free.len() as int).subrange(0, to - from);
    assert(free.subrange(from, free.len() as int).subrange(to - from, free.len() - from) =~= b);
    lemma_total_one(merged);
    lemma_total_concat(a, seq![merged]);
    lemma_total_concat(a + seq![merged], b);
    if l && r {
        assert(mid =~= seq![free[p - 1]] + seq![free[p]]);
        lemma_total_concat(seq![free[p - 1]], seq![free[p]]);
        lemma_total_one(free[p - 1]);
        lemma_total_one(free[p]);
    } else if l {
        assert(mid =~= seq![free[p - 1]]);
        lemma_total_one(free[p - 1]);
    } else if r {
        assert(mid =~= seq![free[p]]);
        lemma_total_one(free[p]);
    } else {
        assert(mid =~= Seq::<MemInfo>::empty());
    }
}

/// Taking a block out of the granted list keeps the list in order and
/// leaves the block apart from those that stay.
pub proof fn lemma_release(free: Seq<MemInfo>, granted: Seq<MemInfo>, span: MemInfo, k: int)
    requires
        within(granted, span),
        ordered(granted),
        apart(free, granted),
        0 <= k < granted.len(),
    ensures
        within(granted.remove(k), span),
        ordered(granted.remove(k)),
        apart(free, granted.remove(k)),
        total(granted.remove(k)) == total(granted) - granted[k].size,
        forall|y: int|
            0 <= y < granted.remove(k).len() ==> (#[trigger] granted.remove(k)[y]).disjoint(granted[k]),
        forall|x: int| 0 <= x < free.len() ==> (#[trigger] free[x]).disjoint(granted[k]),
{
    let g = granted.remove(k);
    lemma_total_remove(granted, k);
    assert forall|y: int| 0 <= y < g.len() implies (if y < k {
        #[trigger] g[y] == granted[y] && granted[y].end() <= granted[k].base
    } else {
        g[y] == granted[y + 1] && granted[k].end() <= granted[y + 1].base
    }) by {}
    assert forall|x: int, y: int| 0 <= x < y < g.len() implies (#[trigger] g[x]).end() <= (
    #[trigger] g[y]).base by {
        let x0 = if x < k { x } else { x + 1 };
        let y0 = if y < k { y } else { y + 1 };
        assert(granted[x0].end() <= granted[y0].base);
    }
    assert forall|x: int, y: int| 0 <= x < free.len() && 0 <= y < g.len() implies (
    #[trigger] free[x]).disjoint(#[trigger] g[y]) by {
        let y0 = if y < k { y } else { y + 1 };
        assert(free[x].disjoint(granted[y0]));
    }
    assert forall|x: int| 0 <= x < free.len() implies (#[trigger] free[x]).disjoint(
        granted[k],
    ) by {}
}

/// The invariant of the two block lists of a heap over `span`: both are in
/// address order inside the span, no two blocks of either list overlap, free
/// blocks never touch each other, and the sizes add up to the span.
pub open spec fn tiling(span: MemInfo, free: Seq<MemInfo>, allocated: Seq<MemInfo>) -> bool {
    &&& span.end() <= u64::MAX
    &&& within(free, span)
    &&& within(allocated, span)
    &&& separated(free)
    &&& ordered(allocated)
    &&& apart(free, allocated)
    &&& total(free) + total(allocated) == span.size
}

/// Whether no block of `free` can hold `size` bytes aligned to `align`.
pub open spec fn exhausted(free: Seq<MemInfo>, size: u64, align: u64) -> bool {
    forall|i: int| 0 <= i < free.len() ==> !fits(#[trigger] free[i], size, align)
}

/// Whether the block at index `i` is the first of `free` that can hold
/// `info.size` bytes aligned to `align`, and `info` sits at its first
/// aligned address.
pub open spec fn first_fit(free: Seq<MemInfo>, i: int, info: MemInfo, align: u64) -> bool {
    &&& 0 <= i < free.len()
    &&& fits(free[i], info.size, align)
    &&& forall|j: int| 0 <= j < i ==> !fits(#[trigger] free[j], info.size, align)
    &&& info.base == align_up(free[i].base as int, align as int)
}

/// Whether the lists `free1` and `allocated1` are what a grant of `info`
/// makes of `free0` and `allocated0`: the first block that fits is carved,
/// and `info` is recorded at its place in address order.
pub open spec fn grants(
    free0: Seq<MemInfo>,
    allocated0: Seq<MemInfo>,
    free1: Seq<MemInfo>,
    allocated1: Seq<MemInfo>,
    info: MemInfo,
    align: u64,
) -> bool {
    &&& exists|i: int| #[trigger] first_fit(free0, i, info, align) && free1 == carve(free0, i, info)
    &&& exists|k: int|
        0 <= k <= allocated0.len() && allocated1 == #[trigger] allocated0.insert(k, info)
}

/// Whether the lists `free1` and `allocated1` are what the return of the
/// granted block `info` makes of `free0` and `allocated0`: the block leaves
/// the granted list and joins the free list, merged with the neighbours
/// that touch it.
pub open spec fn takes_back(
    free0: Seq<MemInfo>,
    allocated0: Seq<MemInfo>,
    free1: Seq<MemInfo>,
    allocated1: Seq<MemInfo>,
    info: MemInfo,
) -> bool {
    &&& exists|k: int|
        0 <= k < allocated0.len() && allocated0[k] == info && allocated1
            == #[trigger] allocated0.remove(k)
    &&& exists|p: int| gap_at(free0, info, p) && free1 == #[trigger] coalesce(free0, info, p)
}

/// A block that overlaps no free block has a place among them.
pub proof fn lemma_gap_exists(span: MemInfo, free: Seq<MemInfo>, info: MemInfo)
    requires
        within(free, span),
        separated(free),
        info.size > 0,
        forall|x: int| 0 <= x < free.len() ==> (#[trigger] free[x]).disjoint(info),
    ensures
        exists|p: int| gap_at(free, info, p),
    decreases free.len(),
{
    if free.len() == 0 {
        assert(gap_at(free, info, 0));
    } else {
        let n = free.len() - 1;
        let last = free[n];
        assert(last.disjoint(info));
        if last.end() <= info.base {
            assert forall|i: int| 0 <= i < free.len() implies (#[trigger] free[i]).end() <= info.base by {
                if i < n {
                    assert(free[i].end() < free[n].base);
                }
            }
            assert(gap_at(free, info, free.len() as int));
        } else {
            let shorter = free.drop_last();
            assert forall|x: int| 0 <= x < shorter.len() implies (#[trigger] shorter[x]).disjoint(
                info,
            ) by {
                assert(shorter[x] == free[x]);
            }
            assert forall|i: int, j: int| 0 <= i < j < shorter.len() implies (#[trigger] shorter[i]).end()
                < (#[trigger] shorter[j]).base by {
                assert(free[i].end() < free[j].base);
            }
            assert forall|i: int| 0 <= i < shorter.len() implies (#[trigger] shorter[i]).size > 0
                && span.base <= shorter[i].base && shorter[i].end() <= span.end() by {
                assert(shorter[i] == free[i]);
            }
            lemma_gap_exists(span, shorter, info);
            let p = choose|p: int| gap_at(shorter, info, p);
            assert forall|i: int| 0 <= i < p implies (#[trigger] free[i]).end() <= info.base by {
                assert(shorter[i] == free[i]);
            }
            assert forall|i: int| p <= i < free.len() implies info.end() <= (#[trigger] free[i]).base by {
                if i < n {
                    assert(shorter[i] == free[i]);
                }
            }
            assert(gap_at(free, info, p));
        }
    }
}

/// The granted list without the block `info`.
pub open spec fn without(allocated: Seq<MemInfo>, info: MemInfo) -> Seq<MemInfo> {
    allocated.remove(choose|k: int| 0 <= k < allocated.len() && allocated[k] == info)
}

/// The free list with the block `info` returned to it and merged with the
/// neighbours that touch it.
pub open spec fn rejoined(free: Seq<MemInfo>, info: MemInfo) -> Seq<MemInfo> {
    coalesce(free, info, choose|p: int| gap_at(free, info, p))
}

/// The lists after a block is taken back are determined by the lists before.
pub proof fn lemma_takes_back(
    span: MemInfo,
    free0: Seq<MemInfo>,
    allocated0: Seq<MemInfo>,
    free1: Seq<MemInfo>,
    allocated1: Seq<MemInfo>,
    info: MemInfo,
)
    requires
        tiling(span, free0, allocated0),
        takes_back(free0, allocated0, free1, allocated1, info),
    ensures
        free1 == rejoined(free0, info),
        allocated1 == without(allocated0, info),
{
    let k = choose|k: int|
        0 <= k < allocated0.len() && allocated0[k] == info && allocated1
            == #[trigger] allocated0.remove(k);
    let j = choose|k: int| 0 <= k < allocated0.len() && allocated0[k] == info;
    if k < j {
        assert(allocated0[k].end() <= allocated0[j].base);
    } else if j < k {
        assert(allocated0[j].end() <= allocated0[k].base);
    }
    let p = choose|p: int| gap_at(free0, info, p) && free1 == #[trigger] coalesce(free0, info, p);
    let q = choose|p: int| gap_at(free0, info, p);
    if p < q {
        assert(free0[p].end() <= info.base);
        assert(info.end() <= free0[p].base);
    } else if q < p {
        assert(free0[q].end() <= info.base);
        assert(info.end() <= free0[q].base);
    }
}

/// The two block lists of a heap over the span of addresses it manages.
pub struct Allocator {
    span: MemInfo,
    free: Vec<MemInfo>,
    allocated: Vec<MemInfo>,
}

impl Allocator {
    /// The span of addresses that the allocator manages.
    pub closed spec fn span(&self) -> MemInfo {
        self.span
    }

    /// The free blocks, in address order.
    pub closed spec fn free_blocks(&self) -> Seq<MemInfo> {
        self.free@
    }

    /// The granted blocks, in address order.
    pub closed spec fn allocated_blocks(&self) -> Seq<MemInfo> {
        self.allocated@
    }

    /// The invariant of the two lists.
    pub open spec fn wf(&self) -> bool {
        tiling(self.span(), self.free_blocks(), self.allocated_blocks())
    }

    /// An allocator over `size` addresses from `base`, all of them free.
    /// Fails with `OutOfRange` exactly when the span would pass the end of
    /// the address space.
    pub fn new(base: u64, size: u64) -> (r: Result<Allocator, Error>)
        ensures
            base + size > u64::MAX <==> r == Err::<Allocator, Error>(Error::OutOfRange),
            base + size <= u64::MAX <==> r is Ok,
            r matches Ok(a) ==> {
                &&& a.wf()
                &&& a.span() == (MemInfo { base, size })
                &&& a.allocated_blocks() == Seq::<MemInfo>::empty()
                &&& a.free_blocks() == if size == 0 {
                    Seq::<MemInfo>::empty()
                } else {
                    seq![MemInfo { base, size }]
                }
            },
    {
        if size > u64::MAX - base {
            return Err(Error::OutOfRange);
        }
        let span = MemInfo { base, size };
        let mut free: Vec<MemInfo> = Vec::new();
        if size > 0 {
            free.push(span);
            proof {
                lemma_total_one(span);
                assert(free@ =~= seq![span]);
            }
        }
        Ok(Allocator { span, free, allocated: Vec::new() })
    }

    /// The span of addresses that the allocator manages.
    pub fn info(&self) -> (info: MemInfo)
        ensures
            info == self.span(),
    {
        self.span
    }

    /// The free blocks, in address order.
    pub fn free_list(&self) -> (list: &Vec<MemInfo>)
        ensures
            list@ == self.free_blocks(),
    {
        &self.free
    }

    /// The granted blocks, in address order.
    pub fn allocated_list(&self) -> (list: &Vec<MemInfo>)
        ensures
            list@ == self.allocated_blocks(),
    {
        &self.allocated
    }

    /// Whether `info` is among the granted blocks.
    pub fn is_allocated(&self, info: MemInfo) -> (b: bool)
        ensures
            b == self.allocated_blocks().contains(info),
    {
        let mut k: usize = 0;
        while k < self.allocated.len()
            invariant
                k <= self.allocated.len(),
                forall|j: int| 0 <= j < k ==> self.allocated@[j] != info,
            decreases self.allocated.len() - k,
        {
            let b = self.allocated[k];
            if b.base == info.base && b.size == info.size {
                return true;
            }
            k += 1;
        }
        false
    }

    /// The index at which a block that begins at `base` belongs among the
    /// granted blocks.
    fn place(&self, base: u64) -> (k: usize)
        ensures
            k <= self.allocated@.len(),
            forall|j: int| 0 <= j < k ==> (#[trigger] self.allocated@[j]).base < base,
            k < self.allocated@.len() ==> self.allocated@[k as int].base >= base,
    {
        let mut k: usize = 0;
        while k < self.allocated.len() && self.allocated[k].base < base
            invariant
                k <= self.allocated.len(),
                forall|j: int| 0 <= j < k ==> (#[trigger] self.allocated@[j]).base < base,
            decreases self.allocated.len() - k,
        {
            k += 1;
        }
        k
    }

    /// Grants `size` bytes at a base that is a multiple of `align`, out of the
    /// first free block in address order that can hold them. What is left of
    /// that block on either side stays free.
    ///
    /// Fails with `InvalidAlign` when `align` is not a power of two, and
    /// otherwise with `OutOfSpace` when `size` is zero or no free block fits;
    /// a failed call changes nothing.
    pub fn allocate(&mut self, size: u64, align: u64) -> (r: Result<MemInfo, Error>)
        requires
            old(self).wf(),
        ensures
            final(self).wf(),
            final(self).span() == old(self).span(),
            !is_power_of_two(align) ==> r == Err::<MemInfo, Error>(Error::InvalidAlign),
            is_power_of_two(align) && (size == 0 || exhausted(old(self).free_blocks(), size, align))
                ==> r == Err::<MemInfo, Error>(Error::OutOfSpace),
            is_power_of_two(align) && size != 0 && !exhausted(old(self).free_blocks(), size, align)
                ==> r is Ok,
            r is Err ==> *final(self) == *old(self),
            r matches Ok(info) ==> {
                &&& info.size == size
                &&& info.base % align == 0
                &&& old(self).allocated_blocks().len() < final(self).allocated_blocks().len()
                &&& grants(
                    old(self).free_blocks(),
                    old(self).allocated_blocks(),
                    final(self).free_blocks(),
                    final(self).allocated_blocks(),
                    info,
                    align,
                )
            },
    {
        if align == 0 || align & (align - 1) != 0 {
            return Err(Error::InvalidAlign);
        }
        if size == 0 {
            return Err(Error::OutOfSpace);
        }
        let mut i: usize = 0;
        while i < self.free.len()
            invariant
                *self == *old(self),
                self.wf(),
                is_power_of_two(align),
                align > 0,
                size > 0,
                i <= self.free.len(),
                forall|j: int| 0 <= j < i ==> !fits(#[trigger] self.free@[j], size, align),
            decreases self.free.len() - i,
        {
            let block = self.free[i];
            let rem = block.base % align;
            let pad = if rem == 0 {
                0
            } else {
                align - rem
            };
            if pad <= block.size && size <= block.size - pad {
                let base = block.base + pad;
                let info = MemInfo { base, size };
                let ghost f0 = self.free@;
                let ghost a0 = self.allocated@;
                proof {
                    lemma_align_up(block.base as int, align as int);
                    assert(f0[i as int] == block);
                    assert(first_fit(f0, i as int, info, align));
                    lemma_carve(f0, a0, self.span, i as int, info);
                }
                self.free.remove(i);
                let tail = block.size - pad - size;
                if tail > 0 {
                    self.free.insert(i, MemInfo { base: base + size, size: tail });
                }
                if pad > 0 {
                    self.free.insert(i, MemInfo { base: block.base, size: pad });
                }
                assert(self.free@ =~= carve(f0, i as int, info));
                let k = self.place(base);
                proof {
                    lemma_record(self.free@, a0, self.span, k as int, info);
                }
                self.allocated.insert(k, info);
                assert(self.allocated@ == a0.insert(k as int, info));
                return Ok(info);
            }
            i += 1;
        }
        Err(Error::OutOfSpace)
    }

    /// Returns the granted block `info` to the free list and merges it with
    /// the free neighbours that touch it on either side.
    ///
    /// The block must be one that is presently granted; `is_allocated` tells.
    pub fn free(&mut self, info: MemInfo)
        requires
            old(self).wf(),
            old(self).allocated_blocks().contains(info),
        ensures
            final(self).wf(),
            final(self).span() == old(self).span(),
            takes_back(
                old(self).free_blocks(),
                old(self).allocated_blocks(),
                final(self).free_blocks(),
                final(self).allocated_blocks(),
                info,
            ),
    {
        let ghost f0 = self.free@;
        let ghost a0 = self.allocated@;
        let k = self.find(info);
        proof {
            lemma_release(f0, a0, self.span, k as int);
        }
        self.allocated.remove(k);
        let ghost a1 = self.allocated@;
        assert(a1 == a0.remove(k as int));
        let p = self.gap(info);
        proof {
            lemma_coalesce(f0, a1, self.span, p as int, info);
            lemma_total_nonnegative(a1);
        }
        self.merge(info, p);
    }

    /// Puts `info` into the free list at place `p`, merged with the
    /// neighbours that touch it.
    fn merge(&mut self, info: MemInfo, p: usize)
        requires
            gap_at(old(self).free@, info, p as int),
            within(old(self).free@, old(self).span),
            old(self).span.end() <= u64::MAX,
            old(self).span.base <= info.base,
            info.end() <= old(self).span.end(),
            total(old(self).free@) + info.size <= u64::MAX,
        ensures
            final(self).free@ == coalesce(old(self).free@, info, p as int),
            final(self).allocated == old(self).allocated,
            final(self).span == old(self).span,
    {
        let ghost f0 = self.free@;
        let mut base = info.base;
        let mut size = info.size;
        let mut from = p;
        let right = p < self.free.len() && self.free[p].base - info.base == info.size;
        let left = p > 0 && info.base - self.free[p - 1].base == self.free[p - 1].size;
        assert(right == joins_right(f0, info, p as int));
        assert(left == joins_left(f0, info, p as int));
        if right {
            assert(size + self.free[p as int].size <= u64::MAX) by {
                assert(f0[p as int].end() <= self.span.end());
            }
            size = size + self.free[p].size;
            self.free.remove(p);
        }
        if left {
            base = self.free[p - 1].base;
            assert(size + self.free[p - 1].size <= u64::MAX) by {
                assert(self.span.base <= f0[p - 1].base);
                if right {
                    assert(f0[p as int].end() <= self.span.end());
                }
            }
            size = size + self.free[p - 1].size;
            self.free.remove(p - 1);
            from = p - 1;
        }
        self.free.insert(from, MemInfo { base, size });
        assert(self.free@ =~= coalesce(f0, info, p as int));
    }

    /// The index of the granted block `info`.
    fn find(&self, info: MemInfo) -> (k: usize)
        requires
            self.allocated@.contains(info),
        ensures
            k < self.allocated@.len(),
            self.allocated@[k as int] == info,
    {
        let mut k: usize = 0;
        while k < self.allocated.len() && !(self.allocated[k].base == info.base
            && self.allocated[k].size == info.size)
            invariant
                k <= self.allocated.len(),
                self.allocated@.contains(info),
                forall|j: int| 0 <= j < k ==> self.allocated@[j] != info,
            decreases self.allocated.len() - k,
        {
            k += 1;
        }
        k
    }

    /// The place among the free blocks of a block that overlaps none of them.
    fn gap(&self, info: MemInfo) -> (p: usize)
        requires
            separated(self.free@),
            within(self.free@, self.span),
            info.size > 0,
            forall|x: int| 0 <= x < self.free@.len() ==> (#[trigger] self.free@[x]).disjoint(info),
        ensures
            gap_at(self.free@, info, p as int),
    {
        let mut p: usize = 0;
        while p < self.free.len() && self.free[p].base < info.base
            invariant
                p <= self.free.len(),
                forall|j: int| 0 <= j < p ==> (#[trigger] self.free@[j]).base < info.base,
            decreases self.free.len() - p,
        {
            p += 1;
        }
        proof {
            let f0 = self.free@;
            assert forall|j: int| p <= j < f0.len() implies info.end() <= (#[trigger] f0[j]).base by {
                assert(f0[j].disjoint(info));
                if p < j {
                    assert(f0[p as int].end() < f0[j].base);
                }
            }
            assert forall|j: int| 0 <= j < p implies (#[trigger] f0[j]).end() <= info.base by {
                assert(f0[j].disjoint(info));
            }
        }
        p
    }
}

} // verus!
