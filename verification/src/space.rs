//! Named collections of regions that share no address.

use crate::access::IoAccess;
use crate::error::Error;
use crate::memory::MemInfo;
use crate::region::{Fabric, Region};
use vstd::prelude::*;

verus! {

/// A region as a space lists it: under a name, with the geometry it had when
/// it was added.
pub struct Entry {
    name: String,
    region: Region,
    info: MemInfo,
}

/// The mathematical content of an entry.
pub struct EntryModel {
    pub name: Seq<char>,
    pub region: Region,
    pub info: MemInfo,
}

impl View for Entry {
    type V = EntryModel;

    closed spec fn view(&self) -> EntryModel {
        EntryModel { name: self.name@, region: self.region, info: self.info }
    }
}

/// Whether two blocks cannot both stand in a space: they share an address
/// or begin at the same one.
pub open spec fn conflict(a: MemInfo, b: MemInfo) -> bool {
    (a.base < b.end() && b.base < a.end()) || a.base == b.base
}

/// Entries are in address order and their blocks are pairwise disjoint.
pub open spec fn spaced(entries: Seq<EntryModel>) -> bool {
    forall|i: int, j: int|
        0 <= i < j < entries.len() ==> (#[trigger] entries[i]).info.base < (#[trigger] entries[j]).info.base
            && entries[i].info.end() <= entries[j].info.base
}

/// No two entries have the same name.
pub open spec fn distinct_names(entries: Seq<EntryModel>) -> bool {
    forall|i: int, j: int|
        0 <= i < j < entries.len() ==> (#[trigger] entries[i]).name != (#[trigger] entries[j]).name
}

/// Whether an entry of that name is listed.
pub open spec fn has_name(entries: Seq<EntryModel>, name: Seq<char>) -> bool {
    exists|i: int| 0 <= i < entries.len() && (#[trigger] entries[i]).name == name
}

/// Whether the block of a listed entry conflicts with `info`.
pub open spec fn has_conflict(entries: Seq<EntryModel>, info: MemInfo) -> bool {
    exists|i: int| 0 <= i < entries.len() && conflict((#[trigger] entries[i]).info, info)
}

/// Whether the block of a listed entry contains `addr`.
pub open spec fn has_addr(entries: Seq<EntryModel>, addr: int) -> bool {
    exists|i: int| 0 <= i < entries.len() && (#[trigger] entries[i]).info.contains(addr)
}

/// No address lies in the blocks of two entries of a space.
pub proof fn lemma_one_region_per_address(entries: Seq<EntryModel>, i: int, j: int, addr: int)
    requires
        spaced(entries),
        0 <= i < entries.len(),
        0 <= j < entries.len(),
        entries[i].info.contains(addr),
        entries[j].info.contains(addr),
    ensures
        i == j,
{
    if i < j {
        assert(entries[i].info.end() <= entries[j].info.base);
    } else if j < i {
        assert(entries[j].info.end() <= entries[i].info.base);
    }
}

/// A named registry of regions, ordered by base address.
pub struct Space {
    name: String,
    entries: Vec<Entry>,
}

impl Space {
    /// The name of the space.
    pub closed spec fn name_view(&self) -> Seq<char> {
        self.name@
    }

    /// The entries of the space, in address order.
    pub closed spec fn entries(&self) -> Seq<EntryModel> {
        Seq::new(self.entries@.len(), |i: int| self.entries@[i]@)
    }

    /// The invariant of a space: its entries are in address order, their
    /// blocks are pairwise disjoint, and no name is listed twice.
    pub open spec fn wf(&self) -> bool {
        spaced(self.entries()) && distinct_names(self.entries())
    }

    /// An empty space.
    pub fn new(name: &str) -> (s: Space)
        ensures
            s.wf(),
            s.name_view() == name@,
            s.entries() == Seq::<EntryModel>::empty(),
    {
        let s = Space { name: name.to_owned(), entries: Vec::new() };
        assert(s.entries() =~= Seq::<EntryModel>::empty());
        s
    }

    /// Whether the space has that name.
    pub fn is_named(&self, name: &str) -> (b: bool)
        ensures
            b == (self.name_view() == name@),
    {
        let key = name.to_owned();
        self.name == key
    }

    /// The number of regions listed.
    pub fn len(&self) -> (n: usize)
        ensures
            n == self.entries().len(),
    {
        self.entries.len()
    }

    /// The index of the entry of that name.
    fn find(&self, key: &String) -> (r: Option<usize>)
        ensures
            r matches Some(i) ==> i < self.entries().len() && self.entries()[i as int].name == key@,
            r is None ==> !has_name(self.entries(), key@),
    {
        let mut i: usize = 0;
        while i < self.entries.len()
            invariant
                i <= self.entries.len(),
                forall|j: int| 0 <= j < i ==> (#[trigger] self.entries()[j]).name != key@,
            decreases self.entries.len() - i,
        {
            if self.entries[i].name == *key {
                return Some(i);
            }
            i += 1;
        }
        None
    }

    /// The number of entries that begin at or below `addr`.
    fn rank(&self, addr: u64) -> (k: usize)
        requires
            self.wf(),
        ensures
            k <= self.entries().len(),
            forall|i: int| 0 <= i < k ==> (#[trigger] self.entries()[i]).info.base <= addr,
            forall|i: int| k <= i < self.entries().len() ==> (#[trigger] self.entries()[i]).info.base > addr,
    {
        let mut lo: usize = 0;
        let mut hi: usize = self.entries.len();
        while lo < hi
            invariant
                lo <= hi <= self.entries.len(),
                self.wf(),
                forall|i: int| 0 <= i < lo ==> (#[trigger] self.entries()[i]).info.base <= addr,
                forall|i: int| hi <= i < self.entries().len() ==> (#[trigger] self.entries()[i]).info.base > addr,
            decreases hi - lo,
        {
            let mid = lo + (hi - lo) / 2;
            if self.entries[mid].info.base <= addr {
                assert forall|i: int| 0 <= i < mid + 1 implies (#[trigger] self.entries()[i]).info.base
                    <= addr by {
                    if i < mid {
                        assert(self.entries()[i].info.base < self.entries()[mid as int].info.base);
                    }
                }
                lo = mid + 1;
            } else {
                assert forall|i: int| mid <= i < self.entries().len() implies (
                #[trigger] self.entries()[i]).info.base > addr by {
                    if mid < i {
                        assert(self.entries()[mid as int].info.base < self.entries()[i].info.base);
                    }
                }
                hi = mid;
            }
        }
        lo
    }

    /// The region listed under `name`.
    pub fn get_region(&self, name: &str) -> (r: Option<Region>)
        ensures
            r is Some <==> has_name(self.entries(), name@),
            r matches Some(region) ==> exists|i: int|
                0 <= i < self.entries().len() && (#[trigger] self.entries()[i]).name == name@
                    && self.entries()[i].region == region,
    {
        let key = name.to_owned();
        match self.find(&key) {
            Some(i) => Some(self.entries[i].region),
            None => None,
        }
    }

    /// The region whose block contains `addr`: the last entry that begins at
    /// or below `addr`, if `addr` lies below its end. Fails with `OutOfRange`
    /// when no listed block contains `addr`.
    pub fn get_region_by_addr(&self, addr: u64) -> (r: Result<Region, Error>)
        requires
            self.wf(),
        ensures
            r is Ok <==> has_addr(self.entries(), addr as int),
            r is Err ==> r == Err::<Region, Error>(Error::OutOfRange),
            r matches Ok(region) ==> exists|i: int|
                0 <= i < self.entries().len() && (#[trigger] self.entries()[i]).info.contains(addr as int)
                    && self.entries()[i].region == region,
    {
        let k = self.rank(addr);
        if k > 0 {
            let e = &self.entries[k - 1];
            assert(self.entries()[k - 1] == e@);
            if addr - e.info.base < e.info.size {
                assert(self.entries()[k - 1].info.contains(addr as int));
                return Ok(e.region);
            }
        }
        assert forall|i: int| 0 <= i < self.entries().len() implies !(#[trigger] self.entries()[i]).info.contains(
            addr as int,
        ) by {
            if i < k - 1 {
                assert(self.entries()[i].info.end() <= self.entries()[k - 1].info.base);
            }
        }
        Err(Error::OutOfRange)
    }

    /// Lists the live region `region` under `name` and becomes one of its
    /// holders.
    ///
    /// Fails with `OutOfRange` when the region is not alive, else with
    /// `NameExists` when the name is listed, else with `Overlap` when its
    /// block conflicts with a listed one, else with `OutOfSpace` when its
    /// holders cannot be counted any further. A failed call changes nothing.
    pub fn add_region<D: IoAccess>(&mut self, fabric: &mut Fabric<D>, name: &str, region: Region) -> (r:
        Result<Region, Error>)
        requires
            old(self).wf(),
            old(fabric).wf(),
        ensures
            final(self).wf(),
            final(fabric).wf(),
            final(self).name_view() == old(self).name_view(),
            !old(fabric)@.live_region(region.0 as int) ==> r == Err::<Region, Error>(Error::OutOfRange),
            old(fabric)@.live_region(region.0 as int) ==> {
                let info = old(fabric)@.info(region.0 as int);
                let entries = old(self).entries();
                if has_name(entries, name@) {
                    r == Err::<Region, Error>(Error::NameExists)
                } else if has_conflict(entries, info) {
                    r == Err::<Region, Error>(Error::Overlap)
                } else if old(fabric)@.regions[region.0 as int].holders == u64::MAX {
                    r == Err::<Region, Error>(Error::OutOfSpace)
                } else {
                    &&& r == Ok::<Region, Error>(region)
                    &&& exists|k: int|
                        0 <= k <= entries.len() && final(self).entries() == #[trigger] entries.insert(
                            k,
                            EntryModel { name: name@, region, info },
                        )
                }
            },
            r is Err ==> final(self).entries() == old(self).entries() && final(fabric)@ == old(fabric)@,
            r is Ok ==> final(fabric)@ == old(fabric)@.retained(region.0 as int),
    {
        let info = match fabric.info(region) {
            Ok(info) => info,
            Err(_) => {
                return Err(Error::OutOfRange);
            },
        };
        let key = name.to_owned();
        if self.find(&key).is_some() {
            return Err(Error::NameExists);
        }
        let k = self.rank(info.base);
        let ghost entries = self.entries();
        if k > 0 {
            let prev = &self.entries[k - 1];
            assert(entries[k - 1] == prev@);
            if prev.info.base == info.base || info.base - prev.info.base < prev.info.size {
                assert(conflict(entries[k - 1].info, info));
                return Err(Error::Overlap);
            }
        }
        if k < self.entries.len() {
            let next = &self.entries[k];
            assert(entries[k as int] == next@);
            if next.info.base - info.base < info.size {
                assert(conflict(entries[k as int].info, info));
                return Err(Error::Overlap);
            }
        }
        proof {
            assert forall|i: int| 0 <= i < entries.len() implies !conflict(
                (#[trigger] entries[i]).info,
                info,
            ) by {
                if i < k - 1 {
                    assert(entries[i].info.end() <= entries[k - 1].info.base);
                }
                if i > k {
                    assert(entries[k as int].info.base < entries[i].info.base);
                }
            }
        }
        match fabric.retain(region) {
            Ok(()) => {},
            Err(e) => {
                return Err(Error::OutOfSpace);
            },
        }
        let entry = Entry { name: key, region, info };
        self.entries.insert(k, entry);
        proof {
            let after = self.entries();
            let em = EntryModel { name: name@, region, info };
            assert(after =~= entries.insert(k as int, em));
            assert forall|i: int, j: int| 0 <= i < j < after.len() implies (#[trigger] after[i]).info.base
                < (#[trigger] after[j]).info.base && after[i].info.end() <= after[j].info.base by {
                let i0 = if i < k { i } else { i - 1 };
                let j0 = if j < k { j } else { j - 1 };
                if i != k && j != k {
                    assert(entries[i0].info.base < entries[j0].info.base);
                } else if i == k {
                    assert(!conflict(entries[j0].info, info));
                } else {
                    assert(!conflict(entries[i0].info, info));
                }
            }
            assert forall|i: int, j: int| 0 <= i < j < after.len() implies (#[trigger] after[i]).name != (
            #[trigger] after[j]).name by {
                let i0 = if i < k { i } else { i - 1 };
                let j0 = if j < k { j } else { j - 1 };
                if i != k && j != k {
                    assert(entries[i0].name != entries[j0].name);
                } else if i == k {
                    assert(entries[j0].name != name@);
                } else {
                    assert(entries[i0].name != name@);
                }
            }
        }
        Ok(region)
    }

    /// Takes the entry listed under `name` off the space, gives up the hold
    /// on its region, and says whether there was such an entry. The region
    /// stays alive for its other holders.
    pub fn delete_region<D: IoAccess>(&mut self, fabric: &mut Fabric<D>, name: &str) -> (found: bool)
        requires
            old(self).wf(),
            old(fabric).wf(),
        ensures
            final(self).wf(),
            final(fabric).wf(),
            final(self).name_view() == old(self).name_view(),
            found == has_name(old(self).entries(), name@),
            !found ==> final(self).entries() == old(self).entries() && final(fabric)@ == old(fabric)@,
            found ==> exists|k: int|
                {
                    &&& 0 <= k < old(self).entries().len()
                    &&& (#[trigger] old(self).entries()[k]).name == name@
                    &&& final(self).entries() == old(self).entries().remove(k)
                    &&& final(fabric)@ == old(fabric)@.released(old(self).entries()[k].region.0 as int)
                },
    {
        let key = name.to_owned();
        let ghost entries = self.entries();
        match self.find(&key) {
            None => false,
            Some(k) => {
                let entry = self.entries.remove(k);
                proof {
                    let after = self.entries();
                    assert(after =~= entries.remove(k as int));
                    assert forall|i: int, j: int| 0 <= i < j < after.len() implies (
                    #[trigger] after[i]).info.base < (#[trigger] after[j]).info.base
                        && after[i].info.end() <= after[j].info.base by {
                        let i0 = if i < k { i } else { i + 1 };
                        let j0 = if j < k { j } else { j + 1 };
                        assert(entries[i0].info.base < entries[j0].info.base);
                    }
                    assert forall|i: int, j: int| 0 <= i < j < after.len() implies (
                    #[trigger] after[i]).name != (#[trigger] after[j]).name by {
                        let i0 = if i < k { i } else { i + 1 };
                        let j0 = if j < k { j } else { j + 1 };
                        assert(entries[i0].name != entries[j0].name);
                    }
                }
                let _ = fabric.release(entry.region);
                assert(entries[k as int].region == entry.region);
                true
            },
        }
    }
}

/// Whether a space of that name is listed.
pub open spec fn has_space(spaces: Seq<Space>, name: Seq<char>) -> bool {
    exists|i: int| 0 <= i < spaces.len() && (#[trigger] spaces[i]).name_view() == name
}

/// The registry of spaces by name.
pub struct SpaceTable {
    spaces: Vec<Space>,
}

impl SpaceTable {
    /// The spaces of the table, in the order of their creation.
    pub closed spec fn spaces(&self) -> Seq<Space> {
        self.spaces@
    }

    /// The invariant of the table: every space is well formed and no name
    /// is listed twice.
    pub open spec fn wf(&self) -> bool {
        &&& forall|i: int| 0 <= i < self.spaces().len() ==> (#[trigger] self.spaces()[i]).wf()
        &&& forall|i: int, j: int|
            0 <= i < j < self.spaces().len() ==> (#[trigger] self.spaces()[i]).name_view() != (
            #[trigger] self.spaces()[j]).name_view()
    }

    /// A table without spaces.
    pub fn new() -> (t: SpaceTable)
        ensures
            t.wf(),
            t.spaces().len() == 0,
    {
        SpaceTable { spaces: Vec::new() }
    }

    /// The number of spaces.
    pub fn len(&self) -> (n: usize)
        ensures
            n == self.spaces().len(),
    {
        self.spaces.len()
    }

    /// The index of the space of that name.
    fn find(&self, name: &str) -> (r: Option<usize>)
        ensures
            r matches Some(i) ==> i < self.spaces().len() && self.spaces()[i as int].name_view() == name@,
            r is None ==> !has_space(self.spaces(), name@),
    {
        let mut i: usize = 0;
        while i < self.spaces.len()
            invariant
                i <= self.spaces.len(),
                forall|j: int| 0 <= j < i ==> (#[trigger] self.spaces()[j]).name_view() != name@,
            decreases self.spaces.len() - i,
        {
            if self.spaces[i].is_named(name) {
                return Some(i);
            }
            i += 1;
        }
        None
    }

    /// The space of that name, if the table has one.
    pub fn find_space(&self, name: &str) -> (r: Option<&Space>)
        ensures
            r is Some <==> has_space(self.spaces(), name@),
            r matches Some(s) ==> exists|i: int|
                0 <= i < self.spaces().len() && #[trigger] self.spaces()[i] == *s && s.name_view()
                    == name@,
    {
        match self.find(name) {
            Some(i) => Some(&self.spaces[i]),
            None => None,
        }
    }

    /// The space of that name: the one that the table has, or a new empty
    /// one, which the table has from now on. What the caller makes of the
    /// space is what the table holds afterwards.
    pub fn get_space(&mut self, name: &str) -> (s: &mut Space)
        requires
            old(self).wf(),
        ensures
            s.wf(),
            s.name_view() == name@,
            has_space(old(self).spaces(), name@) ==> exists|i: int|
                {
                    &&& 0 <= i < old(self).spaces().len()
                    &&& #[trigger] old(self).spaces()[i] == *s
                    &&& final(self).spaces() == old(self).spaces().update(i, *final(s))
                },
            !has_space(old(self).spaces(), name@) ==> {
                &&& s.entries() == Seq::<EntryModel>::empty()
                &&& final(self).spaces() == old(self).spaces().push(*final(s))
            },
    {
        match self.find(name) {
            Some(i) => &mut self.spaces[i],
            None => {
                let i = self.spaces.len();
                self.spaces.push(Space::new(name));
                &mut self.spaces[i]
            },
        }
    }
}

} // verus!
