//! The mathematical content of the arena, and what holds of it.

use crate::access::{le_bytes, le_value, lemma_le_bytes_len, IoAccess};
use crate::error::Error;
use crate::heap::{rejoined, tiling, without};
use crate::memory::MemInfo;
use crate::region::{Kind, RegionEntry};
use vstd::prelude::*;

verus! {

/// The mathematical content of a heap.
pub struct HeapModel {
    pub span: MemInfo,
    pub free: Seq<MemInfo>,
    pub allocated: Seq<MemInfo>,
    /// The region that the heap is carved out of, if any.
    pub backing: Option<usize>,
    /// The number of regions that existed when the heap was made.
    pub born: usize,
    /// The bytes of the span; empty where the heap has a backing region.
    pub data: Seq<u8>,
    pub holders: u64,
    pub live: bool,
}

/// Where an address of a region is kept.
pub enum Place {
    /// Byte `index` of the storage of the heap `heap`.
    Store { heap: int, index: int },
    /// Offset `offset` of the device `device`.
    Device { device: int, offset: int },
    Nowhere,
}

/// The mathematical content of the arena.
pub struct FabricModel<D> {
    pub heaps: Seq<HeapModel>,
    pub regions: Seq<RegionEntry>,
    /// The devices of the IO regions; `None` once the region is gone.
    pub devices: Seq<Option<D>>,
}

/// The invariant.
impl<D: IoAccess> FabricModel<D> {
    /// What holds of heap `h`: it is younger than the region that it is
    /// carved out of; while it lives, it tiles its span, and either has
    /// storage for its span or spans a live region.
    pub open spec fn heap_wf(self, h: int) -> bool {
        let e = self.heaps[h];
        &&& e.born <= self.regions.len()
        &&& e.backing matches Some(b) ==> b < e.born
        &&& e.live ==> {
            &&& tiling(e.span, e.free, e.allocated)
            &&& match e.backing {
                Some(b) => self.regions[b as int].live && e.span == self.regions[b as int].info
                    && e.data.len() == 0,
                None => e.data.len() == e.span.size,
            }
        }
    }

    /// What holds of region `r`: what it is built on is older than it; while
    /// it lives, a root region holds a block that its live heap has
    /// granted, and a remap is a window inside its live target.
    pub open spec fn region_wf(self, r: int) -> bool {
        let e = self.regions[r];
        &&& e.info.end() <= u64::MAX
        &&& match e.kind {
            Kind::Root { heap } => {
                &&& heap < self.heaps.len()
                &&& self.heaps[heap as int].born <= r
                &&& e.live ==> self.heaps[heap as int].live && self.heaps[heap as int].allocated.contains(
                    e.info,
                )
            },
            Kind::Remap { target, offset } => {
                &&& target < r
                &&& e.live ==> self.regions[target as int].live && offset + e.info.size
                    <= self.regions[target as int].info.size
            },
            Kind::Io { device } => {
                &&& device < self.devices.len()
                &&& e.live ==> self.devices[device as int] is Some
            },
        }
    }

    /// Whether the live regions `a` and `b` share nothing that one of them
    /// gives up at its end: two root regions of one heap hold different
    /// blocks, and two IO regions have different devices.
    pub open spec fn roots_differ(self, a: int, b: int) -> bool {
        (self.regions[a].live && self.regions[b].live && a != b && self.regions[a].kind
            == self.regions[b].kind) ==> {
            &&& self.regions[a].kind is Root ==> self.regions[a].info != self.regions[b].info
            &&& !(self.regions[a].kind is Io)
        }
    }

    /// The invariant of the arena: what a live heap or region is built on is
    /// alive and older than it, every live heap tiles its span, every live
    /// root region holds a block that its heap has granted, no two of them
    /// hold the same block, and every live IO region has a device of its
    /// own.
    pub open spec fn wf(self) -> bool {
        &&& forall|h: int| 0 <= h < self.heaps.len() ==> #[trigger] self.heap_wf(h)
        &&& forall|r: int| 0 <= r < self.regions.len() ==> #[trigger] self.region_wf(r)
        &&& forall|d: int|
            0 <= d < self.devices.len() && (#[trigger] self.devices[d]) is Some
                ==> self.devices[d]->0.inv()
        &&& forall|a: int, b: int|
            0 <= a < self.regions.len() && 0 <= b < self.regions.len() ==> #[trigger] self.roots_differ(
                a,
                b,
            )
    }

    /// Whether `r` is the index of a live region.
    pub open spec fn live_region(self, r: int) -> bool {
        0 <= r < self.regions.len() && self.regions[r].live
    }

    /// Whether `h` is the index of a live heap.
    pub open spec fn live_heap(self, h: int) -> bool {
        0 <= h < self.heaps.len() && self.heaps[h].live
    }

    /// The geometry of region `r`.
    pub open spec fn info(self, r: int) -> MemInfo {
        self.regions[r].info
    }
}

/// Changes of one heap or region.
impl<D: IoAccess> FabricModel<D> {
    /// The arena with one more heap.
    pub open spec fn push_heap(self, e: HeapModel) -> Self {
        FabricModel { heaps: self.heaps.push(e), ..self }
    }

    /// The arena with one more region.
    pub open spec fn push_region(self, e: RegionEntry) -> Self {
        FabricModel { regions: self.regions.push(e), ..self }
    }

    /// The arena with heap `h` replaced.
    pub open spec fn set_heap(self, h: int, e: HeapModel) -> Self {
        FabricModel { heaps: self.heaps.update(h, e), ..self }
    }

    /// The arena with region `r` replaced.
    pub open spec fn set_region(self, r: int, e: RegionEntry) -> Self {
        FabricModel { regions: self.regions.update(r, e), ..self }
    }

    /// Whether `e` may stand for heap `h`: it differs from it in its block
    /// lists, its bytes and its holders alone, tiles its span, and lists the
    /// block of every live root region of the heap as granted.
    pub open spec fn heap_update_ok(self, h: int, e: HeapModel) -> bool {
        let o = self.heaps[h];
        &&& 0 <= h < self.heaps.len()
        &&& e.born == o.born
        &&& e.backing == o.backing
        &&& e.span == o.span
        &&& e.data.len() == o.data.len()
        &&& e.live == o.live
        &&& e.live ==> tiling(e.span, e.free, e.allocated)
        &&& forall|r: int|
            0 <= r < self.regions.len() && (#[trigger] self.regions[r]).live && self.regions[r].kind is Root
                && self.regions[r].kind->heap == h ==> e.allocated.contains(self.regions[r].info)
    }

    /// Such a change keeps the arena well formed.
    pub proof fn lemma_set_heap(self, h: int, e: HeapModel)
        requires
            self.wf(),
            self.heap_update_ok(h, e),
        ensures
            self.set_heap(h, e).wf(),
    {
        let after = self.set_heap(h, e);
        assert forall|x: int| 0 <= x < after.heaps.len() implies #[trigger] after.heap_wf(x) by {
            assert(self.heap_wf(x));
        }
        assert forall|r: int| 0 <= r < after.regions.len() implies #[trigger] after.region_wf(r) by {
            assert(self.region_wf(r));
        }
        assert forall|a: int, b: int|
            0 <= a < after.regions.len() && 0 <= b < after.regions.len() implies #[trigger] after.roots_differ(
            a,
            b,
        ) by {
            assert(self.roots_differ(a, b));
        }
    }

    /// Whether `e` may stand for region `r`: it differs from it in its
    /// holders alone.
    pub open spec fn region_update_ok(self, r: int, e: RegionEntry) -> bool {
        let o = self.regions[r];
        &&& 0 <= r < self.regions.len()
        &&& e.kind == o.kind
        &&& e.info == o.info
        &&& e.live == o.live
    }

    /// Such a change keeps the arena well formed.
    pub proof fn lemma_set_region(self, r: int, e: RegionEntry)
        requires
            self.wf(),
            self.region_update_ok(r, e),
        ensures
            self.set_region(r, e).wf(),
    {
        let after = self.set_region(r, e);
        assert forall|x: int| 0 <= x < after.heaps.len() implies #[trigger] after.heap_wf(x) by {
            assert(self.heap_wf(x));
        }
        assert forall|x: int| 0 <= x < after.regions.len() implies #[trigger] after.region_wf(x) by {
            assert(self.region_wf(x));
        }
        assert forall|a: int, b: int|
            0 <= a < after.regions.len() && 0 <= b < after.regions.len() implies #[trigger] after.roots_differ(
            a,
            b,
        ) by {
            assert(self.roots_differ(a, b));
        }
    }

    /// Whether a region `e` may be added: what it is built on is alive, a
    /// root region holds a granted block that no live root region holds, and
    /// an IO region has a device that no live IO region has.
    pub open spec fn region_fits(self, e: RegionEntry) -> bool {
        &&& e.info.end() <= u64::MAX
        &&& e.live
        &&& match e.kind {
            Kind::Root { heap } => {
                &&& self.live_heap(heap as int)
                &&& self.heaps[heap as int].allocated.contains(e.info)
                &&& forall|r: int|
                    0 <= r < self.regions.len() && (#[trigger] self.regions[r]).live
                        && self.regions[r].kind == e.kind ==> self.regions[r].info != e.info
            },
            Kind::Remap { target, offset } => {
                &&& self.live_region(target as int)
                &&& offset + e.info.size <= self.regions[target as int].info.size
            },
            Kind::Io { device } => {
                &&& device < self.devices.len()
                &&& self.devices[device as int] is Some
                &&& forall|r: int|
                    0 <= r < self.regions.len() && (#[trigger] self.regions[r]).live
                        ==> self.regions[r].kind != e.kind
            },
        }
    }

    /// Adding such a region keeps the arena well formed.
    pub proof fn lemma_push_region(self, e: RegionEntry)
        requires
            self.wf(),
            self.region_fits(e),
        ensures
            self.push_region(e).wf(),
    {
        let after = self.push_region(e);
        assert forall|x: int| 0 <= x < after.heaps.len() implies #[trigger] after.heap_wf(x) by {
            assert(self.heap_wf(x));
        }
        assert forall|x: int| 0 <= x < after.regions.len() implies #[trigger] after.region_wf(x) by {
            if x < self.regions.len() {
                assert(self.region_wf(x));
            } else {
                if let Kind::Root { heap } = e.kind {
                    assert(self.heap_wf(heap as int));
                }
            }
        }
        assert forall|a: int, b: int|
            0 <= a < after.regions.len() && 0 <= b < after.regions.len() implies #[trigger] after.roots_differ(
            a,
            b,
        ) by {
            if a < self.regions.len() && b < self.regions.len() {
                assert(self.roots_differ(a, b));
            }
        }
    }

    /// A write of bytes in storage keeps the arena well formed.
    pub proof fn lemma_store(self, heap: int, data: Seq<u8>)
        requires
            self.wf(),
            0 <= heap < self.heaps.len(),
            data.len() == self.heaps[heap].data.len(),
        ensures
            self.set_heap(heap, HeapModel { data, ..self.heaps[heap] }).wf(),
    {
        let ne = HeapModel { data, ..self.heaps[heap] };
        assert(self.heap_wf(heap));
        assert forall|m: int|
            0 <= m < self.regions.len() && (#[trigger] self.regions[m]).live && self.regions[m].kind is Root
                && self.regions[m].kind->heap == heap implies ne.allocated.contains(
            self.regions[m].info,
        ) by {
            assert(self.region_wf(m));
        }
        self.lemma_set_heap(heap, ne);
    }
}

/// Where addresses are kept.
impl<D: IoAccess> FabricModel<D> {
    /// Whether `[addr, addr + len)` lies inside the live region `r`.
    pub open spec fn covers(self, r: int, addr: int, len: int) -> bool {
        &&& self.live_region(r)
        &&& self.regions[r].info.base <= addr
        &&& addr + len <= self.regions[r].info.end()
    }

    /// Where the address `addr` of region `r` is kept: a root region of a
    /// heap with storage keeps it there, at its distance from the heap's
    /// base; a root region of a heap carved out of a region keeps it where
    /// that region does; a remap keeps it where its target keeps the
    /// translated address; an IO region hands its device the offset.
    pub open spec fn locate(self, r: int, addr: int) -> Place
        decreases r,
    {
        if 0 <= r < self.regions.len() {
            let e = self.regions[r];
            match e.kind {
                Kind::Root { heap } => {
                    if heap < self.heaps.len() {
                        match self.heaps[heap as int].backing {
                            Some(b) => if b < r {
                                self.locate(b as int, addr)
                            } else {
                                Place::Nowhere
                            },
                            None => Place::Store {
                                heap: heap as int,
                                index: addr - self.heaps[heap as int].span.base,
                            },
                        }
                    } else {
                        Place::Nowhere
                    }
                },
                Kind::Remap { target, offset } => {
                    if target < r {
                        self.locate(
                            target as int,
                            addr - e.info.base + self.regions[target as int].info.base + offset,
                        )
                    } else {
                        Place::Nowhere
                    }
                },
                Kind::Io { device } => Place::Device { device: device as int, offset: addr - e.info.base },
            }
        } else {
            Place::Nowhere
        }
    }

    /// Whether `p` is a run of `len` bytes that exists: inside the storage of
    /// a live heap, or inside the window of a device.
    pub open spec fn valid_run(self, p: Place, len: int) -> bool {
        match p {
            Place::Store { heap, index } => {
                &&& 0 <= heap < self.heaps.len()
                &&& self.heaps[heap].live
                &&& self.heaps[heap].backing is None
                &&& 0 <= index
                &&& index + len <= self.heaps[heap].data.len()
            },
            Place::Device { device, offset } => {
                &&& 0 <= device < self.devices.len()
                &&& self.devices[device] is Some
                &&& 0 <= offset
                &&& offset + len <= u64::MAX
            },
            Place::Nowhere => false,
        }
    }

    /// The place `i` bytes after `p`.
    pub open spec fn shift(p: Place, i: int) -> Place {
        match p {
            Place::Store { heap, index } => Place::Store { heap, index: index + i },
            Place::Device { device, offset } => Place::Device { device, offset: offset + i },
            Place::Nowhere => Place::Nowhere,
        }
    }

    /// A range of addresses inside a live region is kept in one run: in the
    /// storage of one live heap, or behind one device, at consecutive places.
    pub proof fn lemma_locate(self, r: int, addr: int, len: int)
        requires
            self.wf(),
            len >= 0,
            self.covers(r, addr, len),
        ensures
            self.valid_run(self.locate(r, addr), len),
            forall|i: int| #![trigger self.locate(r, addr + i)]
                0 <= i <= len ==> self.locate(r, addr + i) == Self::shift(self.locate(r, addr), i),
        decreases r,
    {
        let e = self.regions[r];
        assert(self.region_wf(r));
        match e.kind {
            Kind::Root { heap } => {
                assert(self.heap_wf(heap as int));
                let he = self.heaps[heap as int];
                let k = choose|k: int| 0 <= k < he.allocated.len() && he.allocated[k] == e.info;
                assert(he.allocated[k] == e.info);
                match he.backing {
                    Some(b) => {
                        self.lemma_locate(b as int, addr, len);
                        assert forall|i: int| #![trigger self.locate(r, addr + i)]
                            0 <= i <= len implies self.locate(r, addr + i) == Self::shift(
                            self.locate(r, addr),
                            i,
                        ) by {
                            assert(self.locate(r, addr + i) == self.locate(b as int, addr + i));
                        }
                    },
                    None => {},
                }
            },
            Kind::Remap { target, offset } => {
                let t = addr - e.info.base + self.regions[target as int].info.base + offset;
                assert(self.region_wf(target as int));
                self.lemma_locate(target as int, t, len);
                assert forall|i: int| #![trigger self.locate(r, addr + i)]
                    0 <= i <= len implies self.locate(r, addr + i) == Self::shift(
                    self.locate(r, addr),
                    i,
                ) by {
                    assert(self.locate(r, addr + i) == self.locate(target as int, t + i));
                }
            },
            Kind::Io { device } => {},
        }
    }

    /// Two arenas with the same regions, and heaps that differ in their
    /// bytes alone, keep every address at the same place.
    pub proof fn lemma_same_places(self, other: Self, r: int, addr: int)
        requires
            self.regions == other.regions,
            self.heaps.len() == other.heaps.len(),
            forall|h: int|
                0 <= h < self.heaps.len() ==> (#[trigger] self.heaps[h]).backing == other.heaps[h].backing
                    && self.heaps[h].span == other.heaps[h].span,
        ensures
            self.locate(r, addr) == other.locate(r, addr),
        decreases r,
    {
        if 0 <= r < self.regions.len() {
            match self.regions[r].kind {
                Kind::Root { heap } => {
                    if heap < self.heaps.len() {
                        if let Some(b) = self.heaps[heap as int].backing {
                            if b < r {
                                self.lemma_same_places(other, b as int, addr);
                            }
                        }
                    }
                },
                Kind::Remap { target, offset } => {
                    if target < r {
                        self.lemma_same_places(
                            other,
                            target as int,
                            addr - self.regions[r].info.base + self.regions[target as int].info.base
                                + offset,
                        );
                    }
                },
                Kind::Io { device } => {},
            }
        }
    }

    /// A remap keeps every address where its target keeps the translated
    /// address.
    pub proof fn lemma_remap_transparent(self, r: int, addr: int)
        requires
            self.wf(),
            self.live_region(r),
            self.regions[r].kind is Remap,
        ensures
            self.locate(r, addr) == self.locate(
                self.regions[r].kind->target as int,
                addr - self.regions[r].info.base + self.regions[self.regions[r].kind->target as int].info.base
                    + self.regions[r].kind->offset,
            ),
    {
        assert(self.region_wf(r));
    }
}

/// Holders, and what becomes of a heap or region without them.
impl<D: IoAccess> FabricModel<D> {
    /// Whether region `m` is a live view of region `r`.
    pub open spec fn views(self, m: int, r: int) -> bool {
        &&& self.live_region(m)
        &&& self.regions[m].kind matches Kind::Remap { target, .. }
        &&& target == r
    }

    /// Whether heap `h` is alive and carved out of region `r`.
    pub open spec fn carved_from(self, h: int, r: int) -> bool {
        self.live_heap(h) && self.heaps[h].backing is Some && self.heaps[h].backing->0 == r
    }

    /// Whether region `m` is a live root region of heap `h`.
    pub open spec fn rooted_in(self, m: int, h: int) -> bool {
        self.live_region(m) && self.regions[m].kind is Root && self.regions[m].kind->heap == h
    }

    /// Whether a live region or heap is built on region `r`.
    pub open spec fn region_in_use(self, r: int) -> bool {
        (exists|m: int| #[trigger] self.views(m, r)) || (exists|h: int| #[trigger] self.carved_from(h, r))
    }

    /// Whether a live root region holds a block of heap `h`.
    pub open spec fn heap_in_use(self, h: int) -> bool {
        exists|m: int| #[trigger] self.rooted_in(m, h)
    }

    /// The arena once the live region `r` is gone: the region is dead, the
    /// block of a root region is back in its heap's free list, and the
    /// device of an IO region is given up. A remap or an IO region leaves
    /// every heap as it is.
    pub open spec fn bury_region(self, r: int) -> Self {
        let e = self.regions[r];
        let dead = self.set_region(r, RegionEntry { live: false, ..e });
        match e.kind {
            Kind::Root { heap } => {
                let he = self.heaps[heap as int];
                dead.set_heap(
                    heap as int,
                    HeapModel {
                        free: rejoined(he.free, e.info),
                        allocated: without(he.allocated, e.info),
                        ..he
                    },
                )
            },
            Kind::Remap { .. } => dead,
            Kind::Io { device } => FabricModel { devices: dead.devices.update(device as int, None), ..dead },
        }
    }

    /// The arena once the live heap `h` is gone: the heap is dead and its
    /// storage is given up.
    pub open spec fn bury_heap(self, h: int) -> Self {
        self.set_heap(h, HeapModel { live: false, data: Seq::empty(), ..self.heaps[h] })
    }

    /// The arena after region `r` is reconsidered: a live region without
    /// holders that nothing alive is built on is buried, and what it was
    /// built on is reconsidered in turn.
    pub open spec fn reap_region(self, r: int) -> Self
        decreases r, 1int,
    {
        if self.live_region(r) && self.regions[r].holders == 0 && !self.region_in_use(r) {
            let next = self.bury_region(r);
            match self.regions[r].kind {
                Kind::Root { heap } => if heap < self.heaps.len() && self.heaps[heap as int].born <= r {
                    next.reap_heap(heap as int)
                } else {
                    next
                },
                Kind::Remap { target, .. } => if target < r {
                    next.reap_region(target as int)
                } else {
                    next
                },
                Kind::Io { .. } => next,
            }
        } else {
            self
        }
    }

    /// The arena after heap `h` is reconsidered: a live heap without holders
    /// and without live root regions is buried, and the region that it was
    /// carved out of is reconsidered in turn.
    pub open spec fn reap_heap(self, h: int) -> Self
        decreases self.heaps[h].born, 0int,
    {
        if self.live_heap(h) && self.heaps[h].holders == 0 && !self.heap_in_use(h) {
            let next = self.bury_heap(h);
            match self.heaps[h].backing {
                Some(b) => if b < self.heaps[h].born {
                    next.reap_region(b as int)
                } else {
                    next
                },
                None => next,
            }
        } else {
            self
        }
    }

    /// The arena after a holder is added to region `r`: nothing changes
    /// unless the region is alive and its holders can still be counted.
    pub open spec fn retained(self, r: int) -> Self {
        if self.live_region(r) && self.regions[r].holders < u64::MAX {
            self.set_region(
                r,
                RegionEntry { holders: (self.regions[r].holders + 1) as u64, ..self.regions[r] },
            )
        } else {
            self
        }
    }

    /// The arena after a holder is taken from region `r`: nothing changes
    /// unless the region is alive and has a holder.
    pub open spec fn released(self, r: int) -> Self {
        if self.live_region(r) && self.regions[r].holders > 0 {
            self.set_region(
                r,
                RegionEntry { holders: (self.regions[r].holders - 1) as u64, ..self.regions[r] },
            ).reap_region(r)
        } else {
            self
        }
    }

    /// Burying a live region that nothing alive is built on keeps the arena
    /// well formed.
    pub proof fn lemma_bury_region(self, r: int)
        requires
            self.wf(),
            self.live_region(r),
            !self.region_in_use(r),
        ensures
            self.bury_region(r).wf(),
    {
        let e = self.regions[r];
        let dead = self.set_region(r, RegionEntry { live: false, ..e });
        assert forall|x: int| 0 <= x < dead.heaps.len() implies #[trigger] dead.heap_wf(x) by {
            assert(self.heap_wf(x));
            assert(!self.carved_from(x, r));
        }
        assert forall|x: int| 0 <= x < dead.regions.len() implies #[trigger] dead.region_wf(x) by {
            assert(self.region_wf(x));
            assert(!self.views(x, r));
        }
        assert forall|a: int, b: int|
            0 <= a < dead.regions.len() && 0 <= b < dead.regions.len() implies #[trigger] dead.roots_differ(
            a,
            b,
        ) by {
            assert(self.roots_differ(a, b));
        }
        assert(dead.wf());
        if let Kind::Io { device } = e.kind {
            let after = self.bury_region(r);
            assert(self.region_wf(r));
            assert forall|x: int| 0 <= x < after.heaps.len() implies #[trigger] after.heap_wf(x) by {
                assert(dead.heap_wf(x));
            }
            assert forall|x: int| 0 <= x < after.regions.len() implies #[trigger] after.region_wf(x) by {
                assert(dead.region_wf(x));
                assert(self.roots_differ(x, r));
            }
            assert forall|a: int, b: int|
                0 <= a < after.regions.len() && 0 <= b < after.regions.len() implies #[trigger] after.roots_differ(
                a,
                b,
            ) by {
                assert(dead.roots_differ(a, b));
            }
        }
        if let Kind::Root { heap } = e.kind {
            let h = heap as int;
            assert(self.region_wf(r));
            assert(self.heap_wf(h));
            let he = self.heaps[h];
            let k = choose|k: int| 0 <= k < he.allocated.len() && he.allocated[k] == e.info;
            let ne = HeapModel {
                free: rejoined(he.free, e.info),
                allocated: without(he.allocated, e.info),
                ..he
            };
            let p = choose|p: int| crate::heap::gap_at(he.free, e.info, p);
            assert(crate::heap::gap_at(he.free, e.info, p)) by {
                crate::heap::lemma_gap_exists(he.span, he.free, e.info);
            }
            crate::heap::lemma_release(he.free, he.allocated, he.span, k);
            crate::heap::lemma_coalesce(he.free, he.allocated.remove(k), he.span, p, e.info);
            assert forall|m: int|
                0 <= m < dead.regions.len() && (#[trigger] dead.regions[m]).live && dead.regions[m].kind is Root
                    && dead.regions[m].kind->heap == h implies ne.allocated.contains(
                dead.regions[m].info,
            ) by {
                assert(self.region_wf(m));
                assert(self.roots_differ(m, r));
                let j = choose|j: int| 0 <= j < he.allocated.len() && he.allocated[j] == self.regions[m].info;
                let j2 = if j < k { j } else { j - 1 };
                assert(he.allocated.remove(k)[j2] == he.allocated[j]);
            }
            dead.lemma_set_heap(h, ne);
        }
    }

    /// Burying a live heap without live root regions keeps the arena well
    /// formed.
    pub proof fn lemma_bury_heap(self, h: int)
        requires
            self.wf(),
            self.live_heap(h),
            !self.heap_in_use(h),
        ensures
            self.bury_heap(h).wf(),
    {
        let after = self.bury_heap(h);
        assert forall|x: int| 0 <= x < after.heaps.len() implies #[trigger] after.heap_wf(x) by {
            assert(self.heap_wf(x));
        }
        assert forall|x: int| 0 <= x < after.regions.len() implies #[trigger] after.region_wf(x) by {
            assert(self.region_wf(x));
            assert(!self.rooted_in(x, h));
        }
        assert forall|a: int, b: int|
            0 <= a < after.regions.len() && 0 <= b < after.regions.len() implies #[trigger] after.roots_differ(
            a,
            b,
        ) by {
            assert(self.roots_differ(a, b));
        }
    }

    /// Whether `after` differs from `self` only below `bound`: in regions of
    /// an index below it and in heaps that were made before that many
    /// regions existed.
    pub open spec fn same_from(self, after: Self, bound: int) -> bool {
        &&& after.regions.len() == self.regions.len()
        &&& after.heaps.len() == self.heaps.len()
        &&& after.devices.len() == self.devices.len()
        &&& forall|i: int| bound <= i < self.regions.len() ==> #[trigger] after.regions[i] == self.regions[i]
        &&& forall|j: int|
            0 <= j < self.heaps.len() ==> (#[trigger] after.heaps[j]).born == self.heaps[j].born
        &&& forall|j: int|
            0 <= j < self.heaps.len() && self.heaps[j].born >= bound ==> #[trigger] after.heaps[j]
                == self.heaps[j]
    }

    /// Reconsidering region `r` changes nothing from `bound` on, where `r`
    /// is below `bound`.
    pub proof fn lemma_reap_region_frame(self, r: int, bound: int)
        requires
            self.wf(),
            r < bound,
        ensures
            self.reap_region(r).wf(),
            self.same_from(self.reap_region(r), bound),
        decreases r, 1int,
    {
        if self.live_region(r) && self.regions[r].holders == 0 && !self.region_in_use(r) {
            let next = self.bury_region(r);
            self.lemma_bury_region(r);
            assert(self.region_wf(r));
            assert(self.same_from(next, bound));
            match self.regions[r].kind {
                Kind::Root { heap } => {
                    if heap < self.heaps.len() && self.heaps[heap as int].born <= r {
                        next.lemma_reap_heap_frame(heap as int, bound);
                    }
                },
                Kind::Remap { target, offset } => {
                    if target < r {
                        next.lemma_reap_region_frame(target as int, bound);
                    }
                },
                Kind::Io { device } => {},
            }
        }
    }

    /// Reconsidering heap `h` changes nothing from `bound` on, where the
    /// heap was made before `bound` regions existed.
    pub proof fn lemma_reap_heap_frame(self, h: int, bound: int)
        requires
            self.wf(),
            0 <= h < self.heaps.len() ==> self.heaps[h].born < bound,
        ensures
            self.reap_heap(h).wf(),
            self.same_from(self.reap_heap(h), bound),
        decreases self.heaps[h].born, 0int,
    {
        if self.live_heap(h) && self.heaps[h].holders == 0 && !self.heap_in_use(h) {
            let next = self.bury_heap(h);
            self.lemma_bury_heap(h);
            assert(self.heap_wf(h));
            assert(self.same_from(next, bound));
            if let Some(b) = self.heaps[h].backing {
                if b < self.heaps[h].born {
                    next.lemma_reap_region_frame(b as int, bound);
                }
            }
        }
    }

    /// Dropping the last holder of a root region that nothing alive is
    /// built on returns exactly its block to its heap: the block leaves the
    /// granted list and joins the free list, merged with the neighbours
    /// that touch it, and the region is dead.
    pub proof fn lemma_drop_root(self, r: int)
        requires
            self.wf(),
            self.live_region(r),
            self.regions[r].kind is Root,
            self.regions[r].holders == 1,
            !self.region_in_use(r),
        ensures
            !self.released(r).live_region(r),
            self.released(r).heaps[self.regions[r].kind->heap as int].free == rejoined(
                self.heaps[self.regions[r].kind->heap as int].free,
                self.regions[r].info,
            ),
            self.released(r).heaps[self.regions[r].kind->heap as int].allocated == without(
                self.heaps[self.regions[r].kind->heap as int].allocated,
                self.regions[r].info,
            ),
    {
        let h = self.regions[r].kind->heap as int;
        let e = RegionEntry { holders: 0, ..self.regions[r] };
        let held = self.set_region(r, e);
        assert(self.region_wf(r));
        assert(self.heap_wf(h));
        assert(!held.region_in_use(r)) by {
            if held.region_in_use(r) {
                if exists|m: int| #[trigger] held.views(m, r) {
                    let m = choose|m: int| #[trigger] held.views(m, r);
                    assert(self.views(m, r));
                } else {
                    let x = choose|x: int| #[trigger] held.carved_from(x, r);
                    assert(self.carved_from(x, r));
                }
            }
        }
        self.lemma_set_region(r, e);
        held.lemma_bury_region(r);
        let buried = held.bury_region(r);
        assert(held.reap_region(r) == buried.reap_heap(h));
        let bound = self.heaps[h].born as int;
        if buried.live_heap(h) && buried.heaps[h].holders == 0 && !buried.heap_in_use(h) {
            let gone = buried.bury_heap(h);
            buried.lemma_bury_heap(h);
            assert(buried.heap_wf(h));
            if let Some(b) = buried.heaps[h].backing {
                if b < buried.heaps[h].born {
                    gone.lemma_reap_region_frame(b as int, bound);
                }
            }
        }
    }

    /// Dropping the last holder of a remap that nothing alive is built on,
    /// while its target has a holder, touches no heap: the remap is dead
    /// and everything else is as it was.
    pub proof fn lemma_drop_remap(self, r: int)
        requires
            self.wf(),
            self.live_region(r),
            self.regions[r].kind is Remap,
            self.regions[r].holders == 1,
            !self.region_in_use(r),
            self.regions[self.regions[r].kind->target as int].holders > 0,
        ensures
            self.released(r).heaps == self.heaps,
            self.released(r).devices == self.devices,
            self.released(r).regions == self.regions.update(
                r,
                RegionEntry { holders: 0, live: false, ..self.regions[r] },
            ),
    {
        let t = self.regions[r].kind->target as int;
        let e = RegionEntry { holders: 0, ..self.regions[r] };
        let held = self.set_region(r, e);
        assert(self.region_wf(r));
        assert(!held.region_in_use(r)) by {
            if held.region_in_use(r) {
                if exists|m: int| #[trigger] held.views(m, r) {
                    let m = choose|m: int| #[trigger] held.views(m, r);
                    assert(self.views(m, r));
                } else {
                    let x = choose|x: int| #[trigger] held.carved_from(x, r);
                    assert(self.carved_from(x, r));
                }
            }
        }
        let buried = held.bury_region(r);
        assert(buried.reap_region(t) == buried);
        assert(buried.regions =~= self.regions.update(
            r,
            RegionEntry { holders: 0, live: false, ..self.regions[r] },
        ));
    }
}

/// The bytes `s` with `data` written over them from index `at` on.
pub open spec fn overwrite(s: Seq<u8>, at: int, data: Seq<u8>) -> Seq<u8> {
    Seq::new(s.len(), |i: int| if at <= i < at + data.len() { data[i - at] } else { s[i] })
}

/// What a device's answer is to the caller of the arena: a count stays a
/// count, a refusal becomes an `IoError` with the device's message.
pub open spec fn device_outcome(r: Result<usize, String>) -> Result<usize, Error> {
    match r {
        Ok(n) => Ok(n),
        Err(msg) => Err(Error::IoError(msg)),
    }
}

/// Whether `out` and `res` are what a reader gets once a device answered
/// `dr` to a read of `len` bytes and left `got` in the buffer: the bytes and
/// the outcome as they are, unless the device changed the buffer's length,
/// which is an `IoError`.
pub open spec fn delivered(
    len: int,
    got: Seq<u8>,
    dr: Result<usize, String>,
    out: Seq<u8>,
    res: Result<usize, Error>,
) -> bool {
    if got.len() == len {
        out == got && res == device_outcome(dr)
    } else {
        &&& out.len() == len
        &&& res matches Err(Error::IoError(msg))
        &&& msg@ == "device changed the buffer's length"@
    }
}

/// Accesses.
impl<D: IoAccess> FabricModel<D> {
    /// Whether `[addr, addr + len)` lies inside the live region `r` and a
    /// heap's storage keeps it.
    pub open spec fn stored(self, r: int, addr: int, len: int) -> bool {
        self.covers(r, addr, len) && self.locate(r, addr) is Store
    }

    /// The bytes of `[addr, addr + len)` of a region that storage keeps.
    pub open spec fn peek(self, r: int, addr: int, len: int) -> Seq<u8> {
        match self.locate(r, addr) {
            Place::Store { heap, index } => self.heaps[heap].data.subrange(index, index + len),
            _ => Seq::empty(),
        }
    }

    /// The arena with `data` written at `addr` of a region that storage keeps.
    pub open spec fn poke(self, r: int, addr: int, data: Seq<u8>) -> Self {
        match self.locate(r, addr) {
            Place::Store { heap, index } => self.set_heap(
                heap,
                HeapModel { data: overwrite(self.heaps[heap].data, index, data), ..self.heaps[heap] },
            ),
            _ => self,
        }
    }

    /// Whether `after`, `out` and `res` are what a read of `len` bytes at
    /// `addr` of region `r` makes of the arena `self`.
    ///
    /// Outside the live region the read fails with `OutOfRange`. Bytes kept
    /// in a heap's storage are copied out and nothing changes. Behind a
    /// device, the device alone changes, as its own contract says, and what
    /// it gave is handed on as `delivered` says.
    pub open spec fn reads(
        self,
        after: Self,
        r: int,
        addr: int,
        len: int,
        out: Seq<u8>,
        res: Result<usize, Error>,
    ) -> bool {
        if !self.covers(r, addr, len) {
            res == Err::<usize, Error>(Error::OutOfRange) && after == self
        } else {
            match self.locate(r, addr) {
                Place::Store { heap, index } => {
                    &&& res == Ok::<usize, Error>(len as usize)
                    &&& after == self
                    &&& out == self.heaps[heap].data.subrange(index, index + len)
                },
                Place::Device { device, offset } => {
                    &&& after == (FabricModel {
                        devices: self.devices.update(device, after.devices[device]),
                        ..self
                    })
                    &&& after.devices[device] is Some
                    &&& exists|dr: Result<usize, String>, got: Seq<u8>| #[trigger]
                        D::read_post(
                            self.devices[device]->0,
                            after.devices[device]->0,
                            offset,
                            len,
                            got,
                            dr,
                        ) && delivered(len, got, dr, out, res)
                },
                Place::Nowhere => false,
            }
        }
    }

    /// Whether `after` and `res` are what a write of `data` at `addr` of
    /// region `r` makes of the arena `self`.
    ///
    /// Outside the live region the write fails with `OutOfRange`. Bytes kept
    /// in a heap's storage are overwritten there and nothing else changes.
    /// Behind a device, the device alone changes, as its own contract says.
    pub open spec fn writes(
        self,
        after: Self,
        r: int,
        addr: int,
        data: Seq<u8>,
        res: Result<usize, Error>,
    ) -> bool {
        if !self.covers(r, addr, data.len() as int) {
            res == Err::<usize, Error>(Error::OutOfRange) && after == self
        } else {
            match self.locate(r, addr) {
                Place::Store { heap, index } => {
                    &&& res == Ok::<usize, Error>(data.len() as usize)
                    &&& after == self.set_heap(
                        heap,
                        HeapModel { data: overwrite(self.heaps[heap].data, index, data), ..self.heaps[heap] },
                    )
                },
                Place::Device { device, offset } => {
                    &&& after == (FabricModel {
                        devices: self.devices.update(device, after.devices[device]),
                        ..self
                    })
                    &&& after.devices[device] is Some
                    &&& exists|dr: Result<usize, String>|
                        res == device_outcome(dr) && #[trigger] D::write_post(
                            self.devices[device]->0,
                            after.devices[device]->0,
                            offset,
                            data,
                            dr,
                        )
                },
                Place::Nowhere => false,
            }
        }
    }

    /// Whether `after` and `res` are what a read of the number that the
    /// `width` bytes at `addr` of region `r` spell makes of the arena `self`:
    /// the bytes of that number were read, or the read failed.
    pub open spec fn reads_value(
        self,
        after: Self,
        r: int,
        addr: int,
        width: nat,
        res: Result<u64, Error>,
    ) -> bool {
        match res {
            Ok(v) => exists|n: usize| #[trigger]
                self.reads(after, r, addr, width as int, le_bytes(v as nat, width), Ok(n)),
            Err(e) => exists|out: Seq<u8>| #[trigger]
                self.reads(after, r, addr, width as int, out, Err(e)),
        }
    }

    /// A write to storage leaves the arena well formed, moves no address,
    /// and is read back: a range of the same region holds the written bytes
    /// where it is the written range, and its old bytes where the two do not
    /// meet.
    pub proof fn lemma_poke(self, r: int, addr: int, data: Seq<u8>, r2: int, addr2: int, len2: int)
        requires
            self.wf(),
            self.stored(r, addr, data.len() as int),
        ensures
            self.poke(r, addr, data).wf(),
            self.poke(r, addr, data).regions == self.regions,
            self.poke(r, addr, data).devices == self.devices,
            self.poke(r, addr, data).locate(r2, addr2) == self.locate(r2, addr2),
            self.poke(r, addr, data).covers(r2, addr2, len2) == self.covers(r2, addr2, len2),
            self.poke(r, addr, data).stored(r2, addr2, len2) == self.stored(r2, addr2, len2),
            self.poke(r, addr, data).peek(r, addr, data.len() as int) == data,
            r2 == r && len2 >= 0 && self.covers(r, addr2, len2) && (addr2 + len2 <= addr || addr
                + data.len() <= addr2) ==> self.poke(r, addr, data).peek(r, addr2, len2) == self.peek(
                r,
                addr2,
                len2,
            ),
    {
        let after = self.poke(r, addr, data);
        self.lemma_locate(r, addr, data.len() as int);
        let heap = self.locate(r, addr)->Store_heap;
        let index = self.locate(r, addr)->Store_index;
        let nd = overwrite(self.heaps[heap].data, index, data);
        self.lemma_store(heap, nd);
        self.lemma_same_places(after, r2, addr2);
        self.lemma_same_places(after, r, addr);
        assert(after.peek(r, addr, data.len() as int) =~= data);
        if r2 == r && len2 >= 0 && self.covers(r, addr2, len2) && (addr2 + len2 <= addr || addr
            + data.len() <= addr2) {
            let base = self.regions[r].info.base as int;
            self.lemma_locate(r, base, self.regions[r].info.size as int);
            assert(self.locate(r, base + (addr - base)) == Self::shift(self.locate(r, base), addr - base));
            assert(self.locate(r, base + (addr2 - base)) == Self::shift(
                self.locate(r, base),
                addr2 - base,
            ));
            self.lemma_same_places(after, r, addr2);
            assert(after.peek(r, addr2, len2) =~= self.peek(r, addr2, len2));
        }
    }

    /// An access through a remap reads the bytes that the same access
    /// through its target reads at the translated address.
    pub proof fn lemma_remap_reads_target(self, r: int, addr: int, len: int)
        requires
            self.wf(),
            self.live_region(r),
            self.regions[r].kind is Remap,
        ensures
            self.peek(r, addr, len) == self.peek(
                self.regions[r].kind->target as int,
                addr - self.regions[r].info.base + self.regions[self.regions[r].kind->target as int].info.base
                    + self.regions[r].kind->offset,
                len,
            ),
            self.covers(r, addr, len) && len >= 0 ==> self.covers(
                self.regions[r].kind->target as int,
                addr - self.regions[r].info.base + self.regions[self.regions[r].kind->target as int].info.base
                    + self.regions[r].kind->offset,
                len,
            ),
    {
        self.lemma_remap_transparent(r, addr);
        assert(self.region_wf(r));
        assert(self.region_wf(self.regions[r].kind->target as int));
    }

    /// What was written to storage is read back: the bytes of a value spell
    /// the value again, cut to the width.
    pub proof fn lemma_write_then_read(self, r: int, addr: int, value: nat, width: nat)
        requires
            self.wf(),
            self.stored(r, addr, width as int),
        ensures
            le_value(self.poke(r, addr, le_bytes(value, width)).peek(r, addr, width as int)) == value
                % crate::access::pow256(width),
            self.poke(r, addr, le_bytes(value, width)).stored(r, addr, width as int),
    {
        lemma_le_bytes_len(value, width);
        crate::access::lemma_le_round_trip(value, width);
        self.lemma_poke(r, addr, le_bytes(value, width), r, addr, width as int);
    }
}

} // verus!
