//! The arena as the machine holds it.

use crate::access::{decode, encode, le_bytes, le_value, lemma_le_bytes_len, lemma_le_bytes_of_value, IoAccess};
use crate::error::Error;
use crate::heap::{exhausted, grants, is_power_of_two, lemma_takes_back, Allocator};
use crate::memory::MemInfo;
use crate::region::model::{delivered, device_outcome, overwrite, FabricModel, HeapModel, Place};
use crate::region::{Heap, Kind, Region, RegionEntry};
use vstd::prelude::*;

verus! {

/// Where an access is carried out, as the arena computes it.
pub enum Target {
    Store { heap: usize, index: usize },
    Device { device: usize, offset: u64 },
}

impl Target {
    /// The place that the target names.
    pub open spec fn place(self) -> Place {
        match self {
            Target::Store { heap, index } => Place::Store { heap: heap as int, index: index as int },
            Target::Device { device, offset } => Place::Device {
                device: device as int,
                offset: offset as int,
            },
        }
    }
}

/// A heap as the arena records it.
pub struct HeapEntry {
    blocks: Allocator,
    backing: Option<usize>,
    born: usize,
    data: Vec<u8>,
    holders: u64,
    live: bool,
}

impl HeapEntry {
    /// The mathematical content of the heap.
    pub closed spec fn model(&self) -> HeapModel {
        HeapModel {
            span: self.blocks.span(),
            free: self.blocks.free_blocks(),
            allocated: self.blocks.allocated_blocks(),
            backing: self.backing,
            born: self.born,
            data: self.data@,
            holders: self.holders,
            live: self.live,
        }
    }
}

/// The arena of heaps, regions and devices.
pub struct Fabric<D: IoAccess> {
    heaps: Vec<HeapEntry>,
    regions: Vec<RegionEntry>,
    devices: Vec<Option<D>>,
}

impl<D: IoAccess> View for Fabric<D> {
    type V = FabricModel<D>;

    closed spec fn view(&self) -> FabricModel<D> {
        FabricModel {
            heaps: Seq::new(self.heaps@.len(), |i: int| self.heaps@[i].model()),
            regions: self.regions@,
            devices: self.devices@,
        }
    }
}

/// Copies `src` over the bytes of `dst` from index `at` on.
pub fn store(dst: &mut Vec<u8>, at: usize, src: &[u8])
    requires
        at + src@.len() <= old(dst)@.len(),
    ensures
        final(dst)@ == overwrite(old(dst)@, at as int, src@),
{
    let n = dst.len();
    let mut i: usize = 0;
    while i < src.len()
        invariant
            i <= src@.len(),
            dst@.len() == n,
            at + src@.len() <= dst@.len(),
            dst@.len() == old(dst)@.len(),
            forall|j: int| 0 <= j < dst@.len() ==> dst@[j] == if at <= j < at + i {
                src@[j - at]
            } else {
                old(dst)@[j]
            },
        decreases src@.len() - i,
    {
        dst[at + i] = src[i];
        i += 1;
    }
    assert(dst@ =~= overwrite(old(dst)@, at as int, src@));
}

/// Copies the bytes of `src` from index `at` on over the whole of `dst`.
pub fn load(src: &Vec<u8>, at: usize, dst: &mut Vec<u8>)
    requires
        at + old(dst)@.len() <= src@.len(),
    ensures
        final(dst)@ == src@.subrange(at as int, at + old(dst)@.len()),
{
    let n = src.len();
    let mut i: usize = 0;
    while i < dst.len()
        invariant
            i <= dst@.len(),
            src@.len() == n,
            dst@.len() == old(dst)@.len(),
            at + dst@.len() <= src@.len(),
            forall|j: int| 0 <= j < i ==> dst@[j] == src@[at + j],
        decreases dst@.len() - i,
    {
        dst[i] = src[at + i];
        i += 1;
    }
    assert(dst@ =~= src@.subrange(at as int, at + old(dst)@.len()));
}

impl<D: IoAccess> Fabric<D> {
    /// The invariant of the arena; see `FabricModel::wf`.
    pub open spec fn wf(&self) -> bool {
        self@.wf()
    }

    /// An arena without heaps or regions.
    pub fn new() -> (f: Fabric<D>)
        ensures
            f.wf(),
            f@.heaps.len() == 0,
            f@.regions.len() == 0,
            f@.devices.len() == 0,
    {
        Fabric { heaps: Vec::new(), regions: Vec::new(), devices: Vec::new() }
    }

    /// A heap over `size` addresses from `base`, with storage of its own that
    /// holds zeros. The caller is its one holder.
    ///
    /// Fails with `OutOfRange` when the span passes the end of the address
    /// space, and with `OutOfSpace` when the host cannot index that many bytes.
    pub fn new_heap(&mut self, base: u64, size: u64) -> (r: Result<Heap, Error>)
        requires
            old(self).wf(),
        ensures
            final(self).wf(),
            base + size > u64::MAX ==> r == Err::<Heap, Error>(Error::OutOfRange),
            base + size <= u64::MAX && size > usize::MAX ==> r == Err::<Heap, Error>(
                Error::OutOfSpace,
            ),
            base + size <= u64::MAX && size <= usize::MAX ==> r is Ok,
            r is Err ==> final(self)@ == old(self)@,
            r matches Ok(h) ==> h.0 == old(self)@.heaps.len() && final(self)@ == old(self)@.push_heap(
                HeapModel {
                    span: MemInfo { base, size },
                    free: if size == 0 {
                        Seq::empty()
                    } else {
                        seq![MemInfo { base, size }]
                    },
                    allocated: Seq::empty(),
                    backing: None,
                    born: old(self)@.regions.len() as usize,
                    data: Seq::new(size as nat, |i: int| 0u8),
                    holders: 1,
                    live: true,
                },
            ),
    {
        let blocks = match Allocator::new(base, size) {
            Ok(b) => b,
            Err(_) => {
                return Err(Error::OutOfRange);
            },
        };
        if size > usize::MAX as u64 {
            return Err(Error::OutOfSpace);
        }
        let data = vec![0u8; size as usize];
        assert(data@ =~= Seq::new(size as nat, |i: int| 0u8));
        let id = self.heaps.len();
        let ghost before = self@;
        let entry = HeapEntry {
            blocks,
            backing: None,
            born: self.regions.len(),
            data,
            holders: 1,
            live: true,
        };
        self.heaps.push(entry);
        proof {
            let after = self@;
            assert(after.heaps =~= before.heaps.push(entry.model()));
            assert forall|h: int| 0 <= h < after.heaps.len() implies #[trigger] after.heap_wf(h) by {
                if h < before.heaps.len() {
                    assert(before.heap_wf(h));
                } else {
                    assert(after.heaps[h] == entry.model());
                    assert(entry.blocks.wf());
                }
            }
            assert(after.devices == before.devices);
            assert(after.regions == before.regions);
            assert forall|r: int| 0 <= r < after.regions.len() implies #[trigger] after.region_wf(
                r,
            ) by {
                assert(before.region_wf(r));
            }
            assert forall|a: int, b: int|
                0 <= a < after.regions.len() && 0 <= b < after.regions.len() implies #[trigger] after.roots_differ(
                a,
                b,
            ) by {
                assert(before.roots_differ(a, b));
            }
        }
        Ok(Heap(id))
    }

    /// A heap over the span of the live region `region`, which keeps its
    /// bytes. The caller is its one holder; the region stays alive while the
    /// heap does.
    ///
    /// Fails with `OutOfRange` when `region` is not alive.
    pub fn nested_heap(&mut self, region: Region) -> (r: Result<Heap, Error>)
        requires
            old(self).wf(),
        ensures
            final(self).wf(),
            !old(self)@.live_region(region.0 as int) ==> r == Err::<Heap, Error>(Error::OutOfRange),
            old(self)@.live_region(region.0 as int) ==> r is Ok,
            r is Err ==> final(self)@ == old(self)@,
            r matches Ok(h) ==> h.0 == old(self)@.heaps.len() && final(self)@ == old(self)@.push_heap(
                HeapModel {
                    span: old(self)@.info(region.0 as int),
                    free: if old(self)@.info(region.0 as int).size == 0 {
                        Seq::empty()
                    } else {
                        seq![old(self)@.info(region.0 as int)]
                    },
                    allocated: Seq::empty(),
                    backing: Some(region.0),
                    born: old(self)@.regions.len() as usize,
                    data: Seq::empty(),
                    holders: 1,
                    live: true,
                },
            ),
    {
        if region.0 >= self.regions.len() || !self.regions[region.0].live {
            return Err(Error::OutOfRange);
        }
        let info = self.regions[region.0].info;
        let ghost before = self@;
        assert(before.region_wf(region.0 as int));
        let blocks = match Allocator::new(info.base, info.size) {
            Ok(b) => b,
            Err(_) => {
                return Err(Error::OutOfRange);
            },
        };
        let id = self.heaps.len();
        let entry = HeapEntry {
            blocks,
            backing: Some(region.0),
            born: self.regions.len(),
            data: Vec::new(),
            holders: 1,
            live: true,
        };
        self.heaps.push(entry);
        proof {
            let after = self@;
            assert(after.heaps =~= before.heaps.push(entry.model()));
            assert forall|h: int| 0 <= h < after.heaps.len() implies #[trigger] after.heap_wf(h) by {
                if h < before.heaps.len() {
                    assert(before.heap_wf(h));
                } else {
                    assert(after.heaps[h] == entry.model());
                    assert(entry.blocks.wf());
                }
            }
            assert(after.devices == before.devices);
            assert(after.regions == before.regions);
            assert forall|r: int| 0 <= r < after.regions.len() implies #[trigger] after.region_wf(
                r,
            ) by {
                assert(before.region_wf(r));
            }
            assert forall|a: int, b: int|
                0 <= a < after.regions.len() && 0 <= b < after.regions.len() implies #[trigger] after.roots_differ(
                a,
                b,
            ) by {
                assert(before.roots_differ(a, b));
            }
        }
        Ok(Heap(id))
    }

    /// Whether `region` names a live region.
    pub fn is_live(&self, region: Region) -> (b: bool)
        ensures
            b == self@.live_region(region.0 as int),
    {
        region.0 < self.regions.len() && self.regions[region.0].live
    }

    /// Whether `heap` names a live heap.
    pub fn is_live_heap(&self, heap: Heap) -> (b: bool)
        ensures
            b == self@.live_heap(heap.0 as int),
    {
        heap.0 < self.heaps.len() && self.heaps[heap.0].live
    }

    /// The geometry of a live region.
    pub fn info(&self, region: Region) -> (r: Result<MemInfo, Error>)
        ensures
            self@.live_region(region.0 as int) ==> r == Ok::<MemInfo, Error>(
                self@.info(region.0 as int),
            ),
            !self@.live_region(region.0 as int) ==> r == Err::<MemInfo, Error>(Error::OutOfRange),
    {
        if region.0 < self.regions.len() && self.regions[region.0].live {
            Ok(self.regions[region.0].info)
        } else {
            Err(Error::OutOfRange)
        }
    }

    /// The blocks that a live heap has granted, in address order.
    pub fn allocated_list(&self, heap: Heap) -> (r: Option<&Vec<MemInfo>>)
        ensures
            self@.live_heap(heap.0 as int) ==> (r matches Some(l) && l@ == self@.heaps[heap.0 as int].allocated),
            !self@.live_heap(heap.0 as int) ==> r is None,
    {
        if heap.0 < self.heaps.len() && self.heaps[heap.0].live {
            Some(self.heaps[heap.0].blocks.allocated_list())
        } else {
            None
        }
    }

    /// The free blocks of a live heap, in address order.
    pub fn free_list(&self, heap: Heap) -> (r: Option<&Vec<MemInfo>>)
        ensures
            self@.live_heap(heap.0 as int) ==> (r matches Some(l) && l@ == self@.heaps[heap.0 as int].free),
            !self@.live_heap(heap.0 as int) ==> r is None,
    {
        if heap.0 < self.heaps.len() && self.heaps[heap.0].live {
            Some(self.heaps[heap.0].blocks.free_list())
        } else {
            None
        }
    }

    /// Grants `size` bytes of the live heap `heap`, at a base that is a
    /// multiple of `align`, as a new root region. The caller is its one
    /// holder; the heap stays alive while the region does.
    ///
    /// Fails with `OutOfRange` when `heap` is not alive, and otherwise as
    /// `Allocator::allocate` does. A failed call changes nothing.
    pub fn allocate(&mut self, heap: Heap, size: u64, align: u64) -> (r: Result<Region, Error>)
        requires
            old(self).wf(),
        ensures
            final(self).wf(),
            !old(self)@.live_heap(heap.0 as int) ==> r == Err::<Region, Error>(Error::OutOfRange),
            old(self)@.live_heap(heap.0 as int) && !is_power_of_two(align) ==> r == Err::<
                Region,
                Error,
            >(Error::InvalidAlign),
            old(self)@.live_heap(heap.0 as int) && is_power_of_two(align) && (size == 0 || exhausted(
                old(self)@.heaps[heap.0 as int].free,
                size,
                align,
            )) ==> r == Err::<Region, Error>(Error::OutOfSpace),
            old(self)@.live_heap(heap.0 as int) && is_power_of_two(align) && size != 0 && !exhausted(
                old(self)@.heaps[heap.0 as int].free,
                size,
                align,
            ) ==> r is Ok,
            r is Err ==> final(self)@ == old(self)@,
            r matches Ok(region) ==> {
                let h = heap.0 as int;
                let before = old(self)@.heaps[h];
                let after = final(self)@.heaps[h];
                let e = final(self)@.regions[region.0 as int];
                &&& region.0 == old(self)@.regions.len()
                &&& e == (RegionEntry { kind: Kind::Root { heap: heap.0 }, info: e.info, holders: 1, live: true })
                &&& e.info.size == size
                &&& e.info.base % align == 0
                &&& grants(before.free, before.allocated, after.free, after.allocated, e.info, align)
                &&& final(self)@ == old(self)@.set_heap(
                    h,
                    HeapModel { free: after.free, allocated: after.allocated, ..before },
                ).push_region(e)
            },
    {
        if heap.0 >= self.heaps.len() || !self.heaps[heap.0].live {
            return Err(Error::OutOfRange);
        }
        let ghost before = self@;
        assert(before.heap_wf(heap.0 as int));
        let granted = self.heaps[heap.0].blocks.allocate(size, align);
        match granted {
            Err(e) => {
                assert(self@.heaps =~= before.heaps);
                Err(e)
            },
            Ok(info) => {
                let id = self.regions.len();
                let e = RegionEntry { kind: Kind::Root { heap: heap.0 }, info, holders: 1, live: true };
                self.regions.push(e);
                proof {
                    let h = heap.0 as int;
                    let a0 = before.heaps[h].allocated;
                    let he = self@.heaps[h];
                    let a1 = he.allocated;
                    let mid = before.set_heap(h, he);
                    let k = choose|k: int| 0 <= k <= a0.len() && a1 == #[trigger] a0.insert(k, info);
                    assert forall|x: int| 0 <= x < a0.len() implies a1.contains(#[trigger] a0[x])
                        && a0[x] != info by {
                        let y = if x < k { x } else { x + 1 };
                        assert(a1[y] == a0[x]);
                        if y < k {
                            assert(a1[y].end() <= a1[k].base);
                        } else {
                            assert(a1[k].end() <= a1[y].base);
                        }
                    }
                    assert(a1[k] == info);
                    assert forall|r: int|
                        0 <= r < before.regions.len() && (#[trigger] before.regions[r]).live
                            && before.regions[r].kind is Root && before.regions[r].kind->heap == h implies a1.contains(
                        before.regions[r].info,
                    ) && before.regions[r].info != info by {
                        assert(before.region_wf(r));
                        let x = choose|x: int| 0 <= x < a0.len() && a0[x] == before.regions[r].info;
                        assert(a1.contains(a0[x]));
                    }
                    before.lemma_set_heap(h, he);
                    mid.lemma_push_region(e);
                    assert(self@.heaps =~= mid.heaps);
                    assert(self@ == mid.push_region(e));
                    assert(he == (HeapModel { free: he.free, allocated: he.allocated, ..before.heaps[h] }));
                }
                Ok(Region(id))
            },
        }
    }

    /// A view of the whole of the live region `target` at the base
    /// `new_base`. The caller is its one holder; the target stays alive while
    /// the view does.
    ///
    /// Fails with `OutOfRange` when `target` is not alive or the view would
    /// pass the end of the address space. A failed call changes nothing.
    pub fn remap(&mut self, new_base: u64, target: Region) -> (r: Result<Region, Error>)
        requires
            old(self).wf(),
        ensures
            final(self).wf(),
            r is Ok <==> old(self)@.live_region(target.0 as int) && new_base + old(self)@.info(
                target.0 as int,
            ).size <= u64::MAX,
            r is Err ==> r == Err::<Region, Error>(Error::OutOfRange) && final(self)@ == old(self)@,
            r matches Ok(region) ==> region.0 == old(self)@.regions.len() && final(self)@ == old(self)@.push_region(
                RegionEntry {
                    kind: Kind::Remap { target: target.0, offset: 0 },
                    info: MemInfo { base: new_base, size: old(self)@.info(target.0 as int).size },
                    holders: 1,
                    live: true,
                },
            ),
    {
        if target.0 >= self.regions.len() || !self.regions[target.0].live {
            return Err(Error::OutOfRange);
        }
        let size = self.regions[target.0].info.size;
        self.remap_partial(new_base, target, 0, size)
    }

    /// A view of `size` bytes of the live region `target`, from its byte
    /// `offset` on, at the base `new_base`. The caller is its one holder; the
    /// target stays alive while the view does.
    ///
    /// Fails with `OutOfRange` when `target` is not alive, when the window
    /// passes the end of the target, or when the view would pass the end of
    /// the address space. A failed call changes nothing.
    pub fn remap_partial(&mut self, new_base: u64, target: Region, offset: u64, size: u64) -> (r:
        Result<Region, Error>)
        requires
            old(self).wf(),
        ensures
            final(self).wf(),
            r is Ok <==> old(self)@.live_region(target.0 as int) && offset + size <= old(self)@.info(
                target.0 as int,
            ).size && new_base + size <= u64::MAX,
            r is Err ==> r == Err::<Region, Error>(Error::OutOfRange) && final(self)@ == old(self)@,
            r matches Ok(region) ==> region.0 == old(self)@.regions.len() && final(self)@ == old(self)@.push_region(
                RegionEntry {
                    kind: Kind::Remap { target: target.0, offset },
                    info: MemInfo { base: new_base, size },
                    holders: 1,
                    live: true,
                },
            ),
    {
        if target.0 >= self.regions.len() || !self.regions[target.0].live {
            return Err(Error::OutOfRange);
        }
        let whole = self.regions[target.0].info.size;
        if offset > whole || size > whole - offset || size > u64::MAX - new_base {
            return Err(Error::OutOfRange);
        }
        let id = self.regions.len();
        let e = RegionEntry {
            kind: Kind::Remap { target: target.0, offset },
            info: MemInfo { base: new_base, size },
            holders: 1,
            live: true,
        };
        proof {
            self@.lemma_push_region(e);
        }
        self.regions.push(e);
        assert(self@ == old(self)@.push_region(e));
        Ok(Region(id))
    }

    /// An IO region of `size` bytes at `base` whose accesses go to `device`,
    /// which the arena owns from now on. The caller is its one holder.
    ///
    /// Fails with `OutOfRange` when the region would pass the end of the
    /// address space. A failed call changes nothing.
    pub fn io(&mut self, base: u64, size: u64, device: D) -> (r: Result<Region, Error>)
        requires
            old(self).wf(),
            device.inv(),
        ensures
            final(self).wf(),
            r is Ok <==> base + size <= u64::MAX,
            r is Err ==> r == Err::<Region, Error>(Error::OutOfRange) && final(self)@ == old(self)@,
            r matches Ok(region) ==> region.0 == old(self)@.regions.len() && final(self)@ == (
            FabricModel { devices: old(self)@.devices.push(Some(device)), ..old(self)@ }).push_region(
                RegionEntry {
                    kind: Kind::Io { device: old(self)@.devices.len() as usize },
                    info: MemInfo { base, size },
                    holders: 1,
                    live: true,
                },
            ),
    {
        if size > u64::MAX - base {
            return Err(Error::OutOfRange);
        }
        let id = self.regions.len();
        let slot = self.devices.len();
        let e = RegionEntry {
            kind: Kind::Io { device: slot },
            info: MemInfo { base, size },
            holders: 1,
            live: true,
        };
        let ghost before = self@;
        self.devices.push(Some(device));
        proof {
            let mid = self@;
            assert(mid == (FabricModel { devices: before.devices.push(Some(device)), ..before }));
            assert forall|x: int| 0 <= x < mid.heaps.len() implies #[trigger] mid.heap_wf(x) by {
                assert(before.heap_wf(x));
            }
            assert forall|x: int| 0 <= x < mid.regions.len() implies #[trigger] mid.region_wf(x) by {
                assert(before.region_wf(x));
            }
            assert forall|a: int, b: int|
                0 <= a < mid.regions.len() && 0 <= b < mid.regions.len() implies #[trigger] mid.roots_differ(
                a,
                b,
            ) by {
                assert(before.roots_differ(a, b));
            }
            assert forall|x: int| 0 <= x < mid.regions.len() && (#[trigger] mid.regions[x]).live implies mid.regions[x].kind
                != e.kind by {
                assert(before.region_wf(x));
            }
            mid.lemma_push_region(e);
        }
        self.regions.push(e);
        assert(self@ == (FabricModel { devices: before.devices.push(Some(device)), ..before }).push_region(
            e,
        ));
        Ok(Region(id))
    }

    /// Whether a live region or heap is built on region `r`.
    fn region_used(&self, r: usize) -> (b: bool)
        ensures
            b == self@.region_in_use(r as int),
    {
        let mut m: usize = 0;
        while m < self.regions.len()
            invariant
                m <= self.regions.len(),
                forall|x: int| 0 <= x < m ==> !#[trigger] self@.views(x, r as int),
            decreases self.regions.len() - m,
        {
            let e = self.regions[m];
            if e.live {
                if let Kind::Remap { target, offset } = e.kind {
                    if target == r {
                        assert(self@.views(m as int, r as int));
                        return true;
                    }
                }
            }
            m += 1;
        }
        let mut h: usize = 0;
        while h < self.heaps.len()
            invariant
                h <= self.heaps.len(),
                forall|x: int| !#[trigger] self@.views(x, r as int),
                forall|x: int| 0 <= x < h ==> !#[trigger] self@.carved_from(x, r as int),
            decreases self.heaps.len() - h,
        {
            if self.heaps[h].live {
                if let Some(b) = self.heaps[h].backing {
                    if b == r {
                        assert(self@.carved_from(h as int, r as int));
                        return true;
                    }
                }
            }
            h += 1;
        }
        false
    }

    /// Whether a live root region holds a block of heap `h`.
    fn heap_used(&self, h: usize) -> (b: bool)
        ensures
            b == self@.heap_in_use(h as int),
    {
        let mut m: usize = 0;
        while m < self.regions.len()
            invariant
                m <= self.regions.len(),
                forall|x: int| 0 <= x < m ==> !#[trigger] self@.rooted_in(x, h as int),
            decreases self.regions.len() - m,
        {
            let e = self.regions[m];
            if e.live {
                if let Kind::Root { heap } = e.kind {
                    if heap == h {
                        assert(self@.rooted_in(m as int, h as int));
                        return true;
                    }
                }
            }
            m += 1;
        }
        false
    }

    /// Buries region `r` if it is alive, has no holder and nothing alive is
    /// built on it, and goes on with what it was built on.
    fn reap_region(&mut self, r: usize)
        requires
            old(self).wf(),
        ensures
            final(self).wf(),
            final(self)@ == old(self)@.reap_region(r as int),
        decreases r, 1int,
    {
        if r >= self.regions.len() || !self.regions[r].live || self.regions[r].holders != 0 {
            return ;
        }
        if self.region_used(r) {
            return ;
        }
        let e = self.regions[r];
        let ghost before = self@;
        proof {
            before.lemma_bury_region(r as int);
            assert(before.region_wf(r as int));
        }
        self.regions[r].live = false;
        match e.kind {
            Kind::Root { heap } => {
                proof {
                    assert(before.heap_wf(heap as int));
                }
                self.heaps[heap].blocks.free(e.info);
                proof {
                    let he = before.heaps[heap as int];
                    let ne = self@.heaps[heap as int];
                    lemma_takes_back(he.span, he.free, he.allocated, ne.free, ne.allocated, e.info);
                    assert(self@.heaps =~= before.bury_region(r as int).heaps);
                    assert(self@.regions =~= before.bury_region(r as int).regions);
                }
                self.reap_heap(heap);
            },
            Kind::Remap { target, offset } => {
                proof {
                    assert(self@.heaps =~= before.heaps);
                    assert(self@.regions =~= before.bury_region(r as int).regions);
                }
                self.reap_region(target);
            },
            Kind::Io { device } => {
                self.devices[device] = None;
                proof {
                    assert(self@.heaps =~= before.heaps);
                    assert(self@.regions =~= before.bury_region(r as int).regions);
                    assert(self@.devices =~= before.bury_region(r as int).devices);
                }
            },
        }
    }

    /// Buries heap `h` if it is alive, has no holder and no live root region,
    /// and goes on with the region that it was carved out of.
    fn reap_heap(&mut self, h: usize)
        requires
            old(self).wf(),
        ensures
            final(self).wf(),
            final(self)@ == old(self)@.reap_heap(h as int),
        decreases old(self)@.heaps[h as int].born, 0int,
    {
        if h >= self.heaps.len() || !self.heaps[h].live || self.heaps[h].holders != 0 {
            return ;
        }
        if self.heap_used(h) {
            return ;
        }
        let ghost before = self@;
        proof {
            before.lemma_bury_heap(h as int);
            assert(before.heap_wf(h as int));
        }
        self.heaps[h].live = false;
        self.heaps[h].data = Vec::new();
        proof {
            assert(self@.heaps =~= before.bury_heap(h as int).heaps);
        }
        if let Some(b) = self.heaps[h].backing {
            self.reap_region(b);
        }
    }

    /// Adds a holder to the live region `region`.
    ///
    /// Fails with `OutOfRange` when the region is not alive and with
    /// `OutOfSpace` when its holders cannot be counted any further. A failed
    /// call changes nothing.
    pub fn retain(&mut self, region: Region) -> (r: Result<(), Error>)
        requires
            old(self).wf(),
        ensures
            final(self).wf(),
            !old(self)@.live_region(region.0 as int) ==> r == Err::<(), Error>(Error::OutOfRange),
            old(self)@.live_region(region.0 as int) && old(self)@.regions[region.0 as int].holders
                == u64::MAX ==> r == Err::<(), Error>(Error::OutOfSpace),
            old(self)@.live_region(region.0 as int) && old(self)@.regions[region.0 as int].holders
                < u64::MAX ==> r is Ok,
            r is Err ==> final(self)@ == old(self)@,
            r is Ok ==> final(self)@ == old(self)@.set_region(
                region.0 as int,
                RegionEntry {
                    holders: (old(self)@.regions[region.0 as int].holders + 1) as u64,
                    ..old(self)@.regions[region.0 as int]
                },
            ),
    {
        if region.0 >= self.regions.len() || !self.regions[region.0].live {
            return Err(Error::OutOfRange);
        }
        if self.regions[region.0].holders == u64::MAX {
            return Err(Error::OutOfSpace);
        }
        let e = self.regions[region.0];
        let ne = RegionEntry { holders: e.holders + 1, ..e };
        proof {
            self@.lemma_set_region(region.0 as int, ne);
        }
        self.regions[region.0] = ne;
        assert(self@.regions =~= old(self)@.regions.update(region.0 as int, ne));
        assert(self@.heaps =~= old(self)@.heaps);
        Ok(())
    }

    /// Takes a holder from the live region `region`. With its last holder
    /// gone, a region that nothing alive is built on is buried: the block of
    /// a root region goes back to its heap, and the heap or the target that
    /// the region was built on is reconsidered in the same way.
    ///
    /// Fails with `OutOfRange` when the region is not alive or has no holder.
    /// A failed call changes nothing.
    pub fn release(&mut self, region: Region) -> (r: Result<(), Error>)
        requires
            old(self).wf(),
        ensures
            final(self).wf(),
            r is Ok <==> old(self)@.live_region(region.0 as int) && old(self)@.regions[region.0 as int].holders
                > 0,
            r is Err ==> r == Err::<(), Error>(Error::OutOfRange) && final(self)@ == old(self)@,
            r is Ok ==> final(self)@ == old(self)@.set_region(
                region.0 as int,
                RegionEntry {
                    holders: (old(self)@.regions[region.0 as int].holders - 1) as u64,
                    ..old(self)@.regions[region.0 as int]
                },
            ).reap_region(region.0 as int),
    {
        if region.0 >= self.regions.len() || !self.regions[region.0].live
            || self.regions[region.0].holders == 0 {
            return Err(Error::OutOfRange);
        }
        let e = self.regions[region.0];
        let ne = RegionEntry { holders: e.holders - 1, ..e };
        proof {
            self@.lemma_set_region(region.0 as int, ne);
        }
        self.regions[region.0] = ne;
        assert(self@.regions =~= old(self)@.regions.update(region.0 as int, ne));
        assert(self@.heaps =~= old(self)@.heaps);
        self.reap_region(region.0);
        Ok(())
    }

    /// Adds a holder to the live heap `heap`.
    ///
    /// Fails with `OutOfRange` when the heap is not alive and with
    /// `OutOfSpace` when its holders cannot be counted any further. A failed
    /// call changes nothing.
    pub fn retain_heap(&mut self, heap: Heap) -> (r: Result<(), Error>)
        requires
            old(self).wf(),
        ensures
            final(self).wf(),
            !old(self)@.live_heap(heap.0 as int) ==> r == Err::<(), Error>(Error::OutOfRange),
            old(self)@.live_heap(heap.0 as int) && old(self)@.heaps[heap.0 as int].holders == u64::MAX
                ==> r == Err::<(), Error>(Error::OutOfSpace),
            old(self)@.live_heap(heap.0 as int) && old(self)@.heaps[heap.0 as int].holders < u64::MAX
                ==> r is Ok,
            r is Err ==> final(self)@ == old(self)@,
            r is Ok ==> final(self)@ == old(self)@.set_heap(
                heap.0 as int,
                HeapModel {
                    holders: (old(self)@.heaps[heap.0 as int].holders + 1) as u64,
                    ..old(self)@.heaps[heap.0 as int]
                },
            ),
    {
        if heap.0 >= self.heaps.len() || !self.heaps[heap.0].live {
            return Err(Error::OutOfRange);
        }
        if self.heaps[heap.0].holders == u64::MAX {
            return Err(Error::OutOfSpace);
        }
        let ghost before = self@;
        let ghost ne = HeapModel {
            holders: (before.heaps[heap.0 as int].holders + 1) as u64,
            ..before.heaps[heap.0 as int]
        };
        proof {
            assert(before.heap_wf(heap.0 as int));
            assert forall|m: int|
                0 <= m < before.regions.len() && (#[trigger] before.regions[m]).live
                    && before.regions[m].kind is Root && before.regions[m].kind->heap
                    == heap.0 implies ne.allocated.contains(before.regions[m].info) by {
                assert(before.region_wf(m));
            }
            before.lemma_set_heap(heap.0 as int, ne);
        }
        self.heaps[heap.0].holders = self.heaps[heap.0].holders + 1;
        assert(self@.heaps =~= before.heaps.update(heap.0 as int, ne));
        Ok(())
    }

    /// Takes a holder from the live heap `heap`. With its last holder gone, a
    /// heap without live root regions is buried, and the region that it was
    /// carved out of is reconsidered as in `release`.
    ///
    /// Fails with `OutOfRange` when the heap is not alive or has no holder.
    /// A failed call changes nothing.
    pub fn release_heap(&mut self, heap: Heap) -> (r: Result<(), Error>)
        requires
            old(self).wf(),
        ensures
            final(self).wf(),
            r is Ok <==> old(self)@.live_heap(heap.0 as int) && old(self)@.heaps[heap.0 as int].holders
                > 0,
            r is Err ==> r == Err::<(), Error>(Error::OutOfRange) && final(self)@ == old(self)@,
            r is Ok ==> final(self)@ == old(self)@.set_heap(
                heap.0 as int,
                HeapModel {
                    holders: (old(self)@.heaps[heap.0 as int].holders - 1) as u64,
                    ..old(self)@.heaps[heap.0 as int]
                },
            ).reap_heap(heap.0 as int),
    {
        if heap.0 >= self.heaps.len() || !self.heaps[heap.0].live || self.heaps[heap.0].holders == 0 {
            return Err(Error::OutOfRange);
        }
        let ghost before = self@;
        let ghost ne = HeapModel {
            holders: (before.heaps[heap.0 as int].holders - 1) as u64,
            ..before.heaps[heap.0 as int]
        };
        proof {
            assert(before.heap_wf(heap.0 as int));
            assert forall|m: int|
                0 <= m < before.regions.len() && (#[trigger] before.regions[m]).live
                    && before.regions[m].kind is Root && before.regions[m].kind->heap
                    == heap.0 implies ne.allocated.contains(before.regions[m].info) by {
                assert(before.region_wf(m));
            }
            before.lemma_set_heap(heap.0 as int, ne);
        }
        self.heaps[heap.0].holders = self.heaps[heap.0].holders - 1;
        assert(self@.heaps =~= before.heaps.update(heap.0 as int, ne));
        self.reap_heap(heap.0);
        Ok(())
    }

    /// The number of holders of a live region.
    pub fn holders(&self, region: Region) -> (n: Option<u64>)
        ensures
            self@.live_region(region.0 as int) ==> n == Some(self@.regions[region.0 as int].holders),
            !self@.live_region(region.0 as int) ==> n is None,
    {
        if region.0 < self.regions.len() && self.regions[region.0].live {
            Some(self.regions[region.0].holders)
        } else {
            None
        }
    }

    /// Where the run of `len` bytes at `addr` of the live region `r` is kept.
    fn resolve(&self, r: usize, addr: u64, len: u64) -> (t: Target)
        requires
            self.wf(),
            self@.covers(r as int, addr as int, len as int),
        ensures
            t.place() == self@.locate(r as int, addr as int),
            self@.valid_run(t.place(), len as int),
        decreases r,
    {
        let e = self.regions[r];
        proof {
            self@.lemma_locate(r as int, addr as int, len as int);
            assert(self@.region_wf(r as int));
        }
        match e.kind {
            Kind::Root { heap } => {
                proof {
                    assert(self@.heap_wf(heap as int));
                    let he = self@.heaps[heap as int];
                    let k = choose|k: int| 0 <= k < he.allocated.len() && he.allocated[k] == e.info;
                    assert(he.allocated[k] == e.info);
                }
                match self.heaps[heap].backing {
                    Some(b) => self.resolve(b, addr, len),
                    None => {
                        let base = self.heaps[heap].blocks.info().base;
                        let n = self.heaps[heap].data.len();
                        assert(addr - base <= n);
                        Target::Store { heap, index: (addr - base) as usize }
                    },
                }
            },
            Kind::Remap { target, offset } => {
                proof {
                    assert(self@.region_wf(target as int));
                }
                let t = (addr - e.info.base) + offset + self.regions[target].info.base;
                self.resolve(target, t, len)
            },
            Kind::Io { device } => Target::Device { device, offset: addr - e.info.base },
        }
    }

    /// Whether `[addr, addr + len)` lies inside the live region `region`.
    pub fn in_range(&self, region: Region, addr: u64, len: usize) -> (b: bool)
        requires
            self.wf(),
        ensures
            b == self@.covers(region.0 as int, addr as int, len as int),
    {
        if region.0 >= self.regions.len() || !self.regions[region.0].live {
            return false;
        }
        let info = self.regions[region.0].info;
        proof {
            assert(self@.region_wf(region.0 as int));
        }
        if addr < info.base {
            return false;
        }
        let off = addr - info.base;
        off <= info.size && len as u64 <= info.size - off
    }

    /// Fills `data` with the bytes at `addr` of `region`; see
    /// `FabricModel::reads`.
    pub fn bytes_read(&mut self, region: Region, addr: u64, data: &mut Vec<u8>) -> (r: Result<
        usize,
        Error,
    >)
        requires
            old(self).wf(),
        ensures
            final(self).wf(),
            final(data)@.len() == old(data)@.len(),
            old(self)@.reads(
                final(self)@,
                region.0 as int,
                addr as int,
                old(data)@.len() as int,
                final(data)@,
                r,
            ),
    {
        let len = data.len();
        if !self.in_range(region, addr, len) {
            return Err(Error::OutOfRange);
        }
        let ghost before = self@;
        match self.resolve(region.0, addr, len as u64) {
            Target::Store { heap, index } => {
                load(&self.heaps[heap].data, index, data);
                let res: Result<usize, Error> = Ok(len);
                assert(before.reads(self@, region.0 as int, addr as int, len as int, data@, res));
                res
            },
            Target::Device { device, offset } => {
                let dr = match &mut self.devices[device] {
                    Some(dev) => dev.read(offset, data),
                    None => Err("no device".to_owned()),
                };
                proof {
                    let after = self@;
                    assert(after.heaps =~= before.heaps);
                    assert(after.devices =~= before.devices.update(device as int, after.devices[device as int]));
                    assert forall|x: int| 0 <= x < after.heaps.len() implies #[trigger] after.heap_wf(x) by {
                        assert(before.heap_wf(x));
                    }
                    assert forall|x: int| 0 <= x < after.regions.len() implies #[trigger] after.region_wf(
                        x,
                    ) by {
                        assert(before.region_wf(x));
                    }
                    assert forall|a: int, b: int|
                        0 <= a < after.regions.len() && 0 <= b < after.regions.len() implies #[trigger] after.roots_differ(
                        a,
                        b,
                    ) by {
                        assert(before.roots_differ(a, b));
                    }
                }
                let ghost old_dev = before.devices[device as int];
                let ghost new_dev = self@.devices[device as int];
                let ghost got = data@;
                assert(D::read_post(old_dev->0, new_dev->0, offset as int, len as int, got, dr));
                assert(self@ == (FabricModel {
                    devices: before.devices.update(device as int, new_dev),
                    ..before
                }));
                let res: Result<usize, Error> = if data.len() != len {
                    data.resize(len, 0);
                    Err(Error::IoError("device changed the buffer's length".to_owned()))
                } else {
                    match dr {
                        Ok(n) => Ok(n),
                        Err(msg) => Err(Error::IoError(msg)),
                    }
                };
                assert(delivered(len as int, got, dr, data@, res));
                assert(before.reads(self@, region.0 as int, addr as int, len as int, data@, res));
                res
            },
        }
    }

    /// Stores `data` at `addr` of `region`; see `FabricModel::writes`.
    pub fn bytes_write(&mut self, region: Region, addr: u64, data: &[u8]) -> (r: Result<usize, Error>)
        requires
            old(self).wf(),
        ensures
            final(self).wf(),
            old(self)@.writes(final(self)@, region.0 as int, addr as int, data@, r),
    {
        let len = data.len();
        if !self.in_range(region, addr, len) {
            return Err(Error::OutOfRange);
        }
        let ghost before = self@;
        match self.resolve(region.0, addr, len as u64) {
            Target::Store { heap, index } => {
                store(&mut self.heaps[heap].data, index, data);
                proof {
                    let nd = overwrite(before.heaps[heap as int].data, index as int, data@);
                    before.lemma_store(heap as int, nd);
                    assert(self@.heaps =~= before.heaps.update(
                        heap as int,
                        HeapModel { data: nd, ..before.heaps[heap as int] },
                    ));
                }
                let res: Result<usize, Error> = Ok(len);
                assert(before.writes(self@, region.0 as int, addr as int, data@, res));
                res
            },
            Target::Device { device, offset } => {
                let dr = match &mut self.devices[device] {
                    Some(dev) => dev.write(offset, data),
                    None => Err("no device".to_owned()),
                };
                proof {
                    let after = self@;
                    assert(after.heaps =~= before.heaps);
                    assert(after.devices =~= before.devices.update(device as int, after.devices[device as int]));
                    assert forall|x: int| 0 <= x < after.heaps.len() implies #[trigger] after.heap_wf(x) by {
                        assert(before.heap_wf(x));
                    }
                    assert forall|x: int| 0 <= x < after.regions.len() implies #[trigger] after.region_wf(
                        x,
                    ) by {
                        assert(before.region_wf(x));
                    }
                    assert forall|a: int, b: int|
                        0 <= a < after.regions.len() && 0 <= b < after.regions.len() implies #[trigger] after.roots_differ(
                        a,
                        b,
                    ) by {
                        assert(before.roots_differ(a, b));
                    }
                }
                let ghost old_dev = before.devices[device as int];
                let ghost new_dev = self@.devices[device as int];
                assert(D::write_post(old_dev->0, new_dev->0, offset as int, data@, dr));
                assert(self@ == (FabricModel {
                    devices: before.devices.update(device as int, new_dev),
                    ..before
                }));
                let res: Result<usize, Error> = match dr {
                    Ok(n) => Ok(n),
                    Err(msg) => Err(Error::IoError(msg)),
                };
                assert(res == device_outcome(dr));
                assert(before.writes(self@, region.0 as int, addr as int, data@, res));
                res
            },
        }
    }

    /// Whether `[addr, addr + len)` lies inside the live region `region` and
    /// a heap's storage keeps it.
    pub fn is_stored(&self, region: Region, addr: u64, len: usize) -> (b: bool)
        requires
            self.wf(),
        ensures
            b == self@.stored(region.0 as int, addr as int, len as int),
    {
        if !self.in_range(region, addr, len) {
            return false;
        }
        match self.resolve(region.0, addr, len as u64) {
            Target::Store { heap, index } => true,
            Target::Device { device, offset } => false,
        }
    }

    /// The `len` bytes at `addr` of `region`, where the range lies inside
    /// the live region and a heap's storage keeps it; `None` otherwise.
    pub fn load_bytes(&self, region: Region, addr: u64, len: usize) -> (r: Option<Vec<u8>>)
        requires
            self.wf(),
        ensures
            self@.stored(region.0 as int, addr as int, len as int) ==> (r matches Some(v) && v@
                == self@.peek(region.0 as int, addr as int, len as int)),
            !self@.stored(region.0 as int, addr as int, len as int) ==> r is None,
    {
        if !self.in_range(region, addr, len) {
            return None;
        }
        match self.resolve(region.0, addr, len as u64) {
            Target::Store { heap, index } => {
                let mut out = vec![0u8; len];
                load(&self.heaps[heap].data, index, &mut out);
                Some(out)
            },
            Target::Device { device, offset } => None,
        }
    }

    /// Writes `data` at `addr` of `region`, where the range lies inside the
    /// live region and a heap's storage keeps it, and says whether it did.
    pub fn store_bytes(&mut self, region: Region, addr: u64, data: &[u8]) -> (ok: bool)
        requires
            old(self).wf(),
        ensures
            final(self).wf(),
            ok == old(self)@.stored(region.0 as int, addr as int, data@.len() as int),
            ok ==> final(self)@ == old(self)@.poke(region.0 as int, addr as int, data@),
            !ok ==> final(self)@ == old(self)@,
    {
        if !self.in_range(region, addr, data.len()) {
            return false;
        }
        let ghost before = self@;
        match self.resolve(region.0, addr, data.len() as u64) {
            Target::Store { heap, index } => {
                store(&mut self.heaps[heap].data, index, data);
                proof {
                    let nd = overwrite(before.heaps[heap as int].data, index as int, data@);
                    before.lemma_store(heap as int, nd);
                    assert(self@.heaps =~= before.heaps.update(
                        heap as int,
                        HeapModel { data: nd, ..before.heaps[heap as int] },
                    ));
                }
                true
            },
            Target::Device { device, offset } => false,
        }
    }

    /// The number that the `width` bytes at `addr` of `region` spell, least
    /// significant byte first, where storage keeps them; `None` otherwise.
    pub fn load_value(&self, region: Region, addr: u64, width: usize) -> (r: Option<u64>)
        requires
            self.wf(),
            width <= 8,
        ensures
            self@.stored(region.0 as int, addr as int, width as int) ==> r == Some(
                le_value(self@.peek(region.0 as int, addr as int, width as int)) as u64,
            ),
            !self@.stored(region.0 as int, addr as int, width as int) ==> r is None,
    {
        match self.load_bytes(region, addr, width) {
            Some(bytes) => {
                proof {
                    self@.lemma_locate(region.0 as int, addr as int, width as int);
                }
                Some(decode(&bytes))
            },
            None => None,
        }
    }

    /// Writes the `width` bytes that spell `value`, least significant byte
    /// first, at `addr` of `region`, where storage keeps them, and says
    /// whether it did.
    pub fn store_value(&mut self, region: Region, addr: u64, value: u64, width: usize) -> (ok: bool)
        requires
            old(self).wf(),
        ensures
            final(self).wf(),
            ok == old(self)@.stored(region.0 as int, addr as int, width as int),
            ok ==> final(self)@ == old(self)@.poke(
                region.0 as int,
                addr as int,
                le_bytes(value as nat, width as nat),
            ),
            !ok ==> final(self)@ == old(self)@,
    {
        let bytes = encode(value, width);
        proof {
            lemma_le_bytes_len(value as nat, width as nat);
        }
        self.store_bytes(region, addr, bytes.as_slice())
    }

    /// Reads the number that `width` bytes at `addr` of `region` spell,
    /// least significant byte first, from storage or from the device.
    pub fn read_value(&mut self, region: Region, addr: u64, width: usize) -> (r: Result<u64, Error>)
        requires
            old(self).wf(),
            width <= 8,
        ensures
            final(self).wf(),
            old(self)@.reads_value(final(self)@, region.0 as int, addr as int, width as nat, r),
            r matches Ok(v) ==> v < crate::access::pow256(width as nat),
    {
        let mut buf = vec![0u8; width];
        match self.bytes_read(region, addr, &mut buf) {
            Ok(n) => {
                let v = decode(&buf);
                proof {
                    crate::access::lemma_le_value_bound(buf@);
                    lemma_le_bytes_of_value(buf@);
                    assert(le_bytes(v as nat, width as nat) == buf@);
                    assert(old(self)@.reads(
                        self@,
                        region.0 as int,
                        addr as int,
                        (width as nat) as int,
                        le_bytes(v as nat, width as nat),
                        Ok(n),
                    ));
                }
                let res: Result<u64, Error> = Ok(v);
                assert(old(self)@.reads_value(self@, region.0 as int, addr as int, width as nat, res)) by {
                    let w = width as nat;
                    let count: Result<usize, Error> = Ok(n);
                    assert(res->Ok_0 == v);
                    assert(old(self)@.reads(
                        self@,
                        region.0 as int,
                        addr as int,
                        w as int,
                        le_bytes(v as nat, w),
                        count,
                    ));
                }
                res
            },
            Err(e) => {
                assert(old(self)@.reads(
                    self@,
                    region.0 as int,
                    addr as int,
                    (width as nat) as int,
                    buf@,
                    Err(e),
                ));
                let ghost failure: Result<usize, Error> = Err(e);
                let ghost out = buf@;
                let res: Result<u64, Error> = Err(e);
                assert(old(self)@.reads_value(self@, region.0 as int, addr as int, width as nat, res)) by {
                    let w = width as nat;
                    assert(old(self)@.reads(self@, region.0 as int, addr as int, w as int, out, failure));
                }
                res
            },
        }
    }

    /// Writes the `width` bytes that spell `value`, least significant byte
    /// first, at `addr` of `region`, to storage or to the device.
    pub fn write_value(&mut self, region: Region, addr: u64, value: u64, width: usize) -> (r: Result<
        usize,
        Error,
    >)
        requires
            old(self).wf(),
        ensures
            final(self).wf(),
            old(self)@.writes(
                final(self)@,
                region.0 as int,
                addr as int,
                le_bytes(value as nat, width as nat),
                r,
            ),
    {
        let bytes = encode(value, width);
        self.bytes_write(region, addr, bytes.as_slice())
    }

    /// Reads the 8-bit number at `addr` of `region`, least significant
    /// byte first; see `FabricModel::reads_value`.
    pub fn read_u8(&mut self, region: Region, addr: u64) -> (r: Result<u8, Error>)
        requires
            old(self).wf(),
        ensures
            final(self).wf(),
            old(self)@.reads_value(
                final(self)@,
                region.0 as int,
                addr as int,
                1,
                match r {
                    Ok(v) => Ok(v as u64),
                    Err(e) => Err(e),
                },
            ),
    {
        proof {
            crate::access::lemma_pow256_values();
        }
        match self.read_value(region, addr, 1) {
            Ok(v) => Ok(v as u8),
            Err(e) => Err(e),
        }
    }

    /// Writes the 8-bit number `value` at `addr` of `region`, least
    /// significant byte first; see `FabricModel::writes`.
    pub fn write_u8(&mut self, region: Region, addr: u64, value: u8) -> (r: Result<usize, Error>)
        requires
            old(self).wf(),
        ensures
            final(self).wf(),
            old(self)@.writes(final(self)@, region.0 as int, addr as int, le_bytes(value as nat, 1), r),
    {
        self.write_value(region, addr, value as u64, 1)
    }

    /// Reads the 16-bit number at `addr` of `region`, least significant
    /// byte first; see `FabricModel::reads_value`.
    pub fn read_u16(&mut self, region: Region, addr: u64) -> (r: Result<u16, Error>)
        requires
            old(self).wf(),
        ensures
            final(self).wf(),
            old(self)@.reads_value(
                final(self)@,
                region.0 as int,
                addr as int,
                2,
                match r {
                    Ok(v) => Ok(v as u64),
                    Err(e) => Err(e),
                },
            ),
    {
        proof {
            crate::access::lemma_pow256_values();
        }
        match self.read_value(region, addr, 2) {
            Ok(v) => Ok(v as u16),
            Err(e) => Err(e),
        }
    }

    /// Writes the 16-bit number `value` at `addr` of `region`, least
    /// significant byte first; see `FabricModel::writes`.
    pub fn write_u16(&mut self, region: Region, addr: u64, value: u16) -> (r: Result<usize, Error>)
        requires
            old(self).wf(),
        ensures
            final(self).wf(),
            old(self)@.writes(final(self)@, region.0 as int, addr as int, le_bytes(value as nat, 2), r),
    {
        self.write_value(region, addr, value as u64, 2)
    }

    /// Reads the 32-bit number at `addr` of `region`, least significant
    /// byte first; see `FabricModel::reads_value`.
    pub fn read_u32(&mut self, region: Region, addr: u64) -> (r: Result<u32, Error>)
        requires
            old(self).wf(),
        ensures
            final(self).wf(),
            old(self)@.reads_value(
                final(self)@,
                region.0 as int,
                addr as int,
                4,
                match r {
                    Ok(v) => Ok(v as u64),
                    Err(e) => Err(e),
                },
            ),
    {
        proof {
            crate::access::lemma_pow256_values();
        }
        match self.read_value(region, addr, 4) {
            Ok(v) => Ok(v as u32),
            Err(e) => Err(e),
        }
    }

    /// Writes the 32-bit number `value` at `addr` of `region`, least
    /// significant byte first; see `FabricModel::writes`.
    pub fn write_u32(&mut self, region: Region, addr: u64, value: u32) -> (r: Result<usize, Error>)
        requires
            old(self).wf(),
        ensures
            final(self).wf(),
            old(self)@.writes(final(self)@, region.0 as int, addr as int, le_bytes(value as nat, 4), r),
    {
        self.write_value(region, addr, value as u64, 4)
    }

    /// Reads the 64-bit number at `addr` of `region`, least significant
    /// byte first; see `FabricModel::reads_value`.
    pub fn read_u64(&mut self, region: Region, addr: u64) -> (r: Result<u64, Error>)
        requires
            old(self).wf(),
        ensures
            final(self).wf(),
            old(self)@.reads_value(
                final(self)@,
                region.0 as int,
                addr as int,
                8,
                match r {
                    Ok(v) => Ok(v),
                    Err(e) => Err(e),
                },
            ),
    {
        proof {
            crate::access::lemma_pow256_values();
        }
        match self.read_value(region, addr, 8) {
            Ok(v) => Ok(v),
            Err(e) => Err(e),
        }
    }

    /// Writes the 64-bit number `value` at `addr` of `region`, least
    /// significant byte first; see `FabricModel::writes`.
    pub fn write_u64(&mut self, region: Region, addr: u64, value: u64) -> (r: Result<usize, Error>)
        requires
            old(self).wf(),
        ensures
            final(self).wf(),
            old(self)@.writes(final(self)@, region.0 as int, addr as int, le_bytes(value as nat, 8), r),
    {
        self.write_value(region, addr, value, 8)
    }
}

} // verus!
