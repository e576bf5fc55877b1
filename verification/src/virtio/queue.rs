//! Split virtqueues over a region of guest memory.
//!
//! The descriptor table and the two rings live in guest memory, at the
//! addresses that the driver publishes. A queue holds those addresses, the
//! queue size and its own cursor into the available ring. Guest memory is a
//! region whose bytes a heap's storage keeps; every access is checked
//! against the region, and nothing is written before all the ranges that a
//! call writes are known to lie inside it.

use crate::access::{le_bytes, le_value, IoAccess};
use crate::error::Error;
use crate::region::{Fabric, FabricModel, Region};
use vstd::prelude::*;

verus! {

/// The descriptor continues at `next`.
pub const VIRTQ_DESC_F_NEXT: u16 = 1;

/// The buffer is for the device to write.
pub const VIRTQ_DESC_F_WRITE: u16 = 2;

/// The buffer holds a table of descriptors.
pub const VIRTQ_DESC_F_INDIRECT: u16 = 4;

/// A descriptor of a split virtqueue.
#[derive(Clone, Copy, Debug, PartialEq, Eq, Structural)]
pub struct Descriptor {
    pub addr: u64,
    pub len: u32,
    pub flags: u16,
    pub next: u16,
}

/// Address and length of a buffer of a chain.
#[derive(Clone, Copy, Debug, PartialEq, Eq, Structural)]
pub struct DescMeta {
    pub addr: u64,
    pub len: u32,
}

impl Descriptor {
    /// Whether the chain goes on at `next`.
    pub open spec fn has_next(self) -> bool {
        self.flags & VIRTQ_DESC_F_NEXT != 0
    }

    /// Whether the buffer is for the device to write.
    pub open spec fn is_write(self) -> bool {
        self.flags & VIRTQ_DESC_F_WRITE != 0
    }

    /// Whether the buffer holds a table of descriptors.
    pub open spec fn is_indirect(self) -> bool {
        self.flags & VIRTQ_DESC_F_INDIRECT != 0
    }

    /// The address and the length of the buffer.
    pub open spec fn meta(self) -> DescMeta {
        DescMeta { addr: self.addr, len: self.len }
    }

    /// The descriptor that sixteen bytes spell: the address in the first
    /// eight, then the length in four, the flags in two and the link in two,
    /// each least significant byte first.
    pub open spec fn decode(bytes: Seq<u8>) -> Descriptor {
        Descriptor {
            addr: le_value(bytes.subrange(0, 8)) as u64,
            len: le_value(bytes.subrange(8, 12)) as u32,
            flags: le_value(bytes.subrange(12, 14)) as u16,
            next: le_value(bytes.subrange(14, 16)) as u16,
        }
    }

    /// The sixteen bytes that spell the descriptor.
    pub open spec fn encode(self) -> Seq<u8> {
        le_bytes(self.addr as nat, 8) + le_bytes(self.len as nat, 4) + le_bytes(self.flags as nat, 2)
            + le_bytes(self.next as nat, 2)
    }
}

/// The sixteen bytes of a descriptor spell the descriptor.
pub proof fn lemma_descriptor_round_trip(d: Descriptor)
    ensures
        d.encode().len() == 16,
        Descriptor::decode(d.encode()) == d,
{
    let a = le_bytes(d.addr as nat, 8);
    let b = le_bytes(d.len as nat, 4);
    let c = le_bytes(d.flags as nat, 2);
    let e = le_bytes(d.next as nat, 2);
    let all = d.encode();
    crate::access::lemma_le_bytes_len(d.addr as nat, 8);
    crate::access::lemma_le_bytes_len(d.len as nat, 4);
    crate::access::lemma_le_bytes_len(d.flags as nat, 2);
    crate::access::lemma_le_bytes_len(d.next as nat, 2);
    assert(all.subrange(0, 8) =~= a);
    assert(all.subrange(8, 12) =~= b);
    assert(all.subrange(12, 14) =~= c);
    assert(all.subrange(14, 16) =~= e);
    crate::access::lemma_le_round_trip(d.addr as nat, 8);
    crate::access::lemma_le_round_trip(d.len as nat, 4);
    crate::access::lemma_le_round_trip(d.flags as nat, 2);
    crate::access::lemma_le_round_trip(d.next as nat, 2);
    crate::access::lemma_pow256_values();
}

/// The number that `bytes` spell from index `at` on, in `width` bytes.
pub fn field(bytes: &Vec<u8>, at: usize, width: usize) -> (v: u64)
    requires
        width <= 8,
        at + width <= bytes@.len(),
    ensures
        v == le_value(bytes@.subrange(at as int, at + width)),
{
    let n = bytes.len();
    let mut part: Vec<u8> = Vec::new();
    let mut i: usize = 0;
    while i < width
        invariant
            i <= width,
            n == bytes@.len(),
            at + width <= bytes@.len(),
            part@ == bytes@.subrange(at as int, at + i),
        decreases width - i,
    {
        part.push(bytes[at + i]);
        assert(part@ =~= bytes@.subrange(at as int, at + i + 1));
        i += 1;
    }
    crate::access::decode(&part)
}

/// The descriptor that the sixteen bytes from index `at` on spell.
pub fn decode_descriptor(bytes: &Vec<u8>, at: usize) -> (d: Descriptor)
    requires
        at + 16 <= bytes@.len(),
    ensures
        d == Descriptor::decode(bytes@.subrange(at as int, at + 16)),
{
    let ghost s = bytes@.subrange(at as int, at + 16);
    proof {
        assert(s.subrange(0, 8) =~= bytes@.subrange(at as int, at + 8));
        assert(s.subrange(8, 12) =~= bytes@.subrange(at + 8, at + 12));
        assert(s.subrange(12, 14) =~= bytes@.subrange(at + 12, at + 14));
        assert(s.subrange(14, 16) =~= bytes@.subrange(at + 14, at + 16));
        crate::access::lemma_le_value_bound(s.subrange(0, 8));
        crate::access::lemma_le_value_bound(s.subrange(8, 12));
        crate::access::lemma_le_value_bound(s.subrange(12, 14));
        crate::access::lemma_le_value_bound(s.subrange(14, 16));
        crate::access::lemma_pow256_values();
    }
    let n = bytes.len();
    let addr = field(bytes, at, 8);
    let len = field(bytes, at + 8, 4);
    let flags = field(bytes, at + 12, 2);
    let next = field(bytes, at + 14, 2);
    Descriptor { addr, len: len as u32, flags: flags as u16, next: next as u16 }
}

/// What a queue is made with.
#[derive(Clone, Copy, Debug, PartialEq, Eq, Structural)]
pub struct QueueSetting {
    pub max_queue_size: u16,
}

/// The device's side of one virtqueue.
#[derive(Clone, Copy, Debug, PartialEq, Eq, Structural)]
pub struct Queue {
    /// The region of guest memory that holds the table and the rings.
    pub memory: Region,
    pub max_queue_size: u16,
    pub ready: bool,
    /// The queue size that the driver chose.
    pub num: u16,
    pub desc_addr: u64,
    pub avail_addr: u64,
    pub used_addr: u64,
    /// The device's cursor into the available ring.
    pub last_avail_idx: u16,
}

/// The bytes at `base + off` of guest memory, where storage keeps them.
pub fn fetch<D: IoAccess>(mem: &Fabric<D>, region: Region, base: u64, off: u64, len: usize) -> (r:
    Option<Vec<u8>>)
    requires
        mem.wf(),
    ensures
        mem@.stored(region.0 as int, base + off, len as int) ==> (r matches Some(v) && v@ == mem@.peek(
            region.0 as int,
            base + off,
            len as int,
        ) && v@.len() == len),
        !mem@.stored(region.0 as int, base + off, len as int) ==> r is None,
{
    if off > u64::MAX - base {
        proof {
            if mem@.live_region(region.0 as int) {
                assert(mem@.region_wf(region.0 as int));
            }
        }
        return None;
    }
    proof {
        if mem@.stored(region.0 as int, base + off, len as int) {
            mem@.lemma_locate(region.0 as int, base + off, len as int);
        }
    }
    mem.load_bytes(region, base + off, len)
}

/// The descriptors of a table of `k` entries at `addr`, in table order. A
/// table entry must not hold a table itself.
pub open spec fn table_from<D: IoAccess>(m: FabricModel<D>, mem: int, addr: int, k: nat) -> Result<
    Seq<Descriptor>,
    Error,
>
    decreases k,
{
    if k == 0 {
        Ok(Seq::empty())
    } else if !m.stored(mem, addr, 16) {
        Err(Error::OutOfRange)
    } else {
        let d = Descriptor::decode(m.peek(mem, addr, 16));
        if d.is_indirect() {
            Err(Error::MalformedDescriptor)
        } else {
            match table_from(m, mem, addr + 16, (k - 1) as nat) {
                Ok(rest) => Ok(seq![d] + rest),
                Err(e) => Err(e),
            }
        }
    }
}

/// The descriptors `acc` followed by those of `rest`, if there are any.
pub open spec fn follow(acc: Seq<Descriptor>, rest: Result<Seq<Descriptor>, Error>) -> Result<
    Seq<Descriptor>,
    Error,
> {
    match rest {
        Ok(s) => Ok(acc + s),
        Err(e) => Err(e),
    }
}

/// What a chain gathers: the buffers of either side in chain order, the
/// bytes that guest memory holds in them where they were collected, and the
/// total length of either side.
pub struct Extracted {
    /// The buffers that the device writes.
    pub read_descs: Vec<DescMeta>,
    /// The buffers that the device reads.
    pub write_descs: Vec<DescMeta>,
    pub read_buf: Vec<u8>,
    pub write_buf: Vec<u8>,
    pub read_len: u32,
    pub write_len: u32,
}

/// The mathematical content of `Extracted`.
pub struct ExtractedModel {
    pub read_descs: Seq<DescMeta>,
    pub write_descs: Seq<DescMeta>,
    pub read_buf: Seq<u8>,
    pub write_buf: Seq<u8>,
    pub read_len: u32,
    pub write_len: u32,
}

impl View for Extracted {
    type V = ExtractedModel;

    open spec fn view(&self) -> ExtractedModel {
        ExtractedModel {
            read_descs: self.read_descs@,
            write_descs: self.write_descs@,
            read_buf: self.read_buf@,
            write_buf: self.write_buf@,
            read_len: self.read_len,
            write_len: self.write_len,
        }
    }
}

impl ExtractedModel {
    /// Nothing gathered.
    pub open spec fn empty() -> ExtractedModel {
        ExtractedModel {
            read_descs: Seq::empty(),
            write_descs: Seq::empty(),
            read_buf: Seq::empty(),
            write_buf: Seq::empty(),
            read_len: 0,
            write_len: 0,
        }
    }

    /// What is gathered once the buffer of `d`, which holds `bytes`, joins
    /// its side.
    pub open spec fn with(self, d: Descriptor, bytes: Seq<u8>, collect_read: bool, collect_write: bool) -> ExtractedModel {
        if d.is_write() {
            ExtractedModel {
                read_descs: self.read_descs.push(d.meta()),
                read_buf: if collect_read {
                    self.read_buf + bytes
                } else {
                    self.read_buf
                },
                read_len: (self.read_len + d.len) as u32,
                ..self
            }
        } else {
            ExtractedModel {
                write_descs: self.write_descs.push(d.meta()),
                write_buf: if collect_write {
                    self.write_buf + bytes
                } else {
                    self.write_buf
                },
                write_len: (self.write_len + d.len) as u32,
                ..self
            }
        }
    }

    /// Whether the side of `d` can take its length.
    pub open spec fn has_room(self, d: Descriptor) -> bool {
        if d.is_write() {
            self.read_len + d.len <= u32::MAX
        } else {
            self.write_len + d.len <= u32::MAX
        }
    }
}

/// What the descriptors `chain` gather, in their order: a descriptor with
/// the WRITE flag joins the side that the device writes, any other the side
/// that the device reads. Fails with `OutOfRange` at the first buffer that
/// guest memory does not hold, and with `MalformedDescriptor` where a side
/// grows past what 32 bits count.
pub open spec fn gather<D: IoAccess>(
    m: FabricModel<D>,
    mem: int,
    chain: Seq<Descriptor>,
    collect_read: bool,
    collect_write: bool,
) -> Result<ExtractedModel, Error>
    decreases chain.len(),
{
    if chain.len() == 0 {
        Ok(ExtractedModel::empty())
    } else {
        match gather(m, mem, chain.drop_last(), collect_read, collect_write) {
            Err(e) => Err(e),
            Ok(g) => {
                let d = chain.last();
                if !m.stored(mem, d.addr as int, d.len as int) {
                    Err(Error::OutOfRange)
                } else if !g.has_room(d) {
                    Err(Error::MalformedDescriptor)
                } else {
                    Ok(g.with(d, m.peek(mem, d.addr as int, d.len as int), collect_read, collect_write))
                }
            },
        }
    }
}

impl Queue {
    /// The index of the queue's region of guest memory.
    pub open spec fn mem(self) -> int {
        self.memory.0 as int
    }

    /// The address of entry `i` of the descriptor table.
    pub open spec fn desc_at(self, i: int) -> int {
        self.desc_addr + 16 * i
    }

    /// Whether guest memory holds entry `i` of the descriptor table.
    pub open spec fn desc_ok<D: IoAccess>(self, m: FabricModel<D>, i: int) -> bool {
        m.stored(self.mem(), self.desc_at(i), 16)
    }

    /// Entry `i` of the descriptor table.
    pub open spec fn desc<D: IoAccess>(self, m: FabricModel<D>, i: int) -> Descriptor {
        Descriptor::decode(m.peek(self.mem(), self.desc_at(i), 16))
    }

    /// What `get_desc` gives.
    pub open spec fn desc_result<D: IoAccess>(self, m: FabricModel<D>, i: int) -> Result<Descriptor, Error> {
        if !self.ready {
            Err(Error::NotReady)
        } else if i >= self.num {
            Err(Error::MalformedDescriptor)
        } else if !self.desc_ok(m, i) {
            Err(Error::OutOfRange)
        } else {
            Ok(self.desc(m, i))
        }
    }

    /// The descriptors that the table entry `d` stands for: the entries of
    /// the table in its buffer where it has the INDIRECT flag, else itself.
    pub open spec fn expand<D: IoAccess>(self, m: FabricModel<D>, d: Descriptor) -> Result<
        Seq<Descriptor>,
        Error,
    > {
        if d.is_indirect() {
            if d.len % 16 != 0 {
                Err(Error::MalformedDescriptor)
            } else {
                table_from(m, self.mem(), d.addr as int, (d.len / 16) as nat)
            }
        } else {
            Ok(seq![d])
        }
    }

    /// The descriptors of the chain from table entry `cur` on, with tables
    /// expanded in place, within `fuel` table entries. Fails with
    /// `MalformedDescriptor` where the chain leaves the table or needs more
    /// entries, and with `OutOfRange` where guest memory does not hold an
    /// entry.
    pub open spec fn walk<D: IoAccess>(self, m: FabricModel<D>, cur: int, fuel: nat) -> Result<
        Seq<Descriptor>,
        Error,
    >
        decreases fuel,
    {
        if fuel == 0 || cur >= self.num {
            Err(Error::MalformedDescriptor)
        } else if !self.desc_ok(m, cur) {
            Err(Error::OutOfRange)
        } else {
            let d = self.desc(m, cur);
            match self.expand(m, d) {
                Err(e) => Err(e),
                Ok(here) => if d.has_next() {
                    follow(here, self.walk(m, d.next as int, (fuel - 1) as nat))
                } else {
                    Ok(here)
                },
            }
        }
    }

    /// The descriptors of the chain that begins at `head`, with tables
    /// expanded in place: at most as many as the queue has entries.
    pub open spec fn chain<D: IoAccess>(self, m: FabricModel<D>, head: int) -> Result<
        Seq<Descriptor>,
        Error,
    > {
        if !self.ready {
            Err(Error::NotReady)
        } else {
            match self.walk(m, head, self.num as nat) {
                Err(e) => Err(e),
                Ok(s) => if s.len() > self.num {
                    Err(Error::MalformedDescriptor)
                } else {
                    Ok(s)
                },
            }
        }
    }

    /// What `extract` gives: what the descriptors of the chain gather.
    pub open spec fn extract_spec<D: IoAccess>(
        self,
        m: FabricModel<D>,
        head: int,
        collect_read: bool,
        collect_write: bool,
    ) -> Result<ExtractedModel, Error> {
        match self.chain(m, head) {
            Err(e) => Err(e),
            Ok(s) => gather(m, self.mem(), s, collect_read, collect_write),
        }
    }

    /// A chain whose head holds a table of descriptors gathers what a chain
    /// of the same descriptors in the same order gathers.
    pub proof fn lemma_indirect_flattening<D: IoAccess>(
        self,
        m: FabricModel<D>,
        indirect: int,
        direct: int,
        collect_read: bool,
        collect_write: bool,
    )
        requires
            self.ready,
            0 <= indirect < self.num,
            self.desc_ok(m, indirect),
            self.desc(m, indirect).is_indirect(),
            !self.desc(m, indirect).has_next(),
            self.desc(m, indirect).len % 16 == 0,
            self.chain(m, direct) is Ok,
            table_from(
                m,
                self.mem(),
                self.desc(m, indirect).addr as int,
                (self.desc(m, indirect).len / 16) as nat,
            ) == self.chain(m, direct),
        ensures
            self.chain(m, indirect) == self.chain(m, direct),
            self.extract_spec(m, indirect, collect_read, collect_write) == self.extract_spec(
                m,
                direct,
                collect_read,
                collect_write,
            ),
    {
    }

    /// A queue over `memory` that is not ready, with everything else zero.
    pub fn new(memory: Region, setting: QueueSetting) -> (q: Queue)
        ensures
            q == (Queue {
                memory,
                max_queue_size: setting.max_queue_size,
                ready: false,
                num: 0,
                desc_addr: 0,
                avail_addr: 0,
                used_addr: 0,
                last_avail_idx: 0,
            }),
    {
        Queue {
            memory,
            max_queue_size: setting.max_queue_size,
            ready: false,
            num: 0,
            desc_addr: 0,
            avail_addr: 0,
            used_addr: 0,
            last_avail_idx: 0,
        }
    }

    pub fn get_ready(&self) -> (b: bool)
        ensures
            b == self.ready,
    {
        self.ready
    }

    pub fn set_ready(&mut self, ready: bool)
        ensures
            *final(self) == (Queue { ready, ..*old(self) }),
    {
        self.ready = ready;
    }

    /// Moves the device's cursor into the available ring one entry on.
    pub fn update_last_avail(&mut self)
        ensures
            *final(self) == (Queue {
                last_avail_idx: ((old(self).last_avail_idx + 1) % 0x1_0000) as u16,
                ..*old(self)
            }),
    {
        self.last_avail_idx = if self.last_avail_idx == u16::MAX {
            0
        } else {
            self.last_avail_idx + 1
        };
    }

    /// Entry `i` of the descriptor table.
    ///
    /// Fails with `NotReady` on a queue that is not ready, else with
    /// `MalformedDescriptor` when the table has no entry `i`, else with
    /// `OutOfRange` when guest memory does not hold the entry.
    pub fn get_desc<D: IoAccess>(&self, mem: &Fabric<D>, i: u16) -> (r: Result<Descriptor, Error>)
        requires
            mem.wf(),
        ensures
            r == self.desc_result(mem@, i as int),
    {
        if !self.ready {
            return Err(Error::NotReady);
        }
        if i >= self.num {
            return Err(Error::MalformedDescriptor);
        }
        match fetch(mem, self.memory, self.desc_addr, 16 * (i as u64), 16) {
            Some(bytes) => {
                assert(bytes@.subrange(0, 16) =~= bytes@);
                Ok(decode_descriptor(&bytes, 0))
            },
            None => Err(Error::OutOfRange),
        }
    }

    /// Appends to `acc` the descriptors that the table entry `d` stands for.
    fn expand_into<D: IoAccess>(&self, mem: &Fabric<D>, d: Descriptor, acc: &mut Vec<Descriptor>) -> (r:
        Result<(), Error>)
        requires
            mem.wf(),
        ensures
            match self.expand(mem@, d) {
                Ok(here) => r is Ok && final(acc)@ == old(acc)@ + here,
                Err(e) => r == Err::<(), Error>(e),
            },
    {
        if d.flags & VIRTQ_DESC_F_INDIRECT == 0 {
            acc.push(d);
            assert(acc@ =~= old(acc)@ + seq![d]);
            return Ok(());
        }
        if d.len % 16 != 0 {
            return Err(Error::MalformedDescriptor);
        }
        let k = d.len / 16;
        let ghost whole = table_from(mem@, self.mem(), d.addr as int, k as nat);
        let ghost before = acc@;
        let ghost mut done: Seq<Descriptor> = Seq::empty();
        let mut j: u32 = 0;
        assert(before + done =~= before);
        while j < k
            invariant
                mem.wf(),
                j <= k,
                k == d.len / 16,
                acc@ == before + done,
                before == old(acc)@,
                self.expand(mem@, d) == whole,
                whole == follow(done, table_from(mem@, self.mem(), d.addr + 16 * j, (k - j) as nat)),
            decreases k - j,
        {
            let ghost addr = d.addr + 16 * j;
            match fetch(mem, self.memory, d.addr, 16 * (j as u64), 16) {
                None => {
                    return Err(Error::OutOfRange);
                },
                Some(bytes) => {
                    assert(bytes@.subrange(0, 16) =~= bytes@);
                    let e = decode_descriptor(&bytes, 0);
                    if e.flags & VIRTQ_DESC_F_INDIRECT != 0 {
                        return Err(Error::MalformedDescriptor);
                    }
                    acc.push(e);
                    proof {
                        let rest = table_from(mem@, self.mem(), addr + 16, (k - j - 1) as nat);
                        if let Ok(tail) = rest {
                            assert(done.push(e) + tail =~= done + (seq![e] + tail));
                        }
                        done = done.push(e);
                        assert(acc@ =~= before + done);
                    }
                },
            }
            j += 1;
        }
        assert(done + Seq::<Descriptor>::empty() =~= done);
        Ok(())
    }

    /// The descriptors of the chain that begins at `head`, with tables
    /// expanded in place; see `Queue::chain`.
    pub fn chain_of<D: IoAccess>(&self, mem: &Fabric<D>, head: u16) -> (r: Result<Vec<Descriptor>, Error>)
        requires
            mem.wf(),
        ensures
            match self.chain(mem@, head as int) {
                Ok(s) => r matches Ok(v) && v@ == s,
                Err(e) => r matches Err(x) && x == e,
            },
    {
        if !self.ready {
            return Err(Error::NotReady);
        }
        let ghost whole = self.walk(mem@, head as int, self.num as nat);
        let mut acc: Vec<Descriptor> = Vec::new();
        let mut cur = head;
        let mut fuel = self.num;
        loop
            invariant_except_break
                whole == follow(acc@, self.walk(mem@, cur as int, fuel as nat)),
            invariant
                mem.wf(),
                self.ready,
                whole == self.walk(mem@, head as int, self.num as nat),
            ensures
                whole == Ok::<Seq<Descriptor>, Error>(acc@),
            decreases fuel,
        {
            if fuel == 0 || cur >= self.num {
                return Err(Error::MalformedDescriptor);
            }
            let d = match fetch(mem, self.memory, self.desc_addr, 16 * (cur as u64), 16) {
                None => {
                    return Err(Error::OutOfRange);
                },
                Some(bytes) => {
                    assert(bytes@.subrange(0, 16) =~= bytes@);
                    decode_descriptor(&bytes, 0)
                },
            };
            let ghost before = acc@;
            match self.expand_into(mem, d, &mut acc) {
                Err(e) => {
                    return Err(e);
                },
                Ok(()) => {},
            }
            if d.flags & VIRTQ_DESC_F_NEXT == 0 {
                break ;
            }
            proof {
                let here = self.expand(mem@, d)->Ok_0;
                let rest = self.walk(mem@, d.next as int, (fuel - 1) as nat);
                if let Ok(tail) = rest {
                    assert((before + here) + tail =~= before + (here + tail));
                }
            }
            cur = d.next;
            fuel = fuel - 1;
        }
        if acc.len() > self.num as usize {
            return Err(Error::MalformedDescriptor);
        }
        Ok(acc)
    }

    /// Walks the chain that begins at `head` and gathers its buffers: those
    /// with the WRITE flag on the side that the device writes, the others on
    /// the side that the device reads, each side in chain order. Where a side
    /// is collected, its bytes are read from guest memory.
    ///
    /// Fails as `Queue::chain` and `gather` say.
    pub fn extract<D: IoAccess>(&self, mem: &Fabric<D>, desc_head: u16, collect_read: bool, collect_write: bool) -> (r:
        Result<Extracted, Error>)
        requires
            mem.wf(),
        ensures
            match self.extract_spec(mem@, desc_head as int, collect_read, collect_write) {
                Ok(g) => r matches Ok(x) && x@ == g,
                Err(e) => r matches Err(x) && x == e,
            },
    {
        let chain = match self.chain_of(mem, desc_head) {
            Ok(c) => c,
            Err(e) => {
                return Err(e);
            },
        };
        let mut out = Extracted {
            read_descs: Vec::new(),
            write_descs: Vec::new(),
            read_buf: Vec::new(),
            write_buf: Vec::new(),
            read_len: 0,
            write_len: 0,
        };
        let mut i: usize = 0;
        assert(chain@.subrange(0, 0) =~= Seq::<Descriptor>::empty());
        while i < chain.len()
            invariant
                mem.wf(),
                i <= chain@.len(),
                self.chain(mem@, desc_head as int) == Ok::<Seq<Descriptor>, Error>(chain@),
                gather(mem@, self.mem(), chain@.subrange(0, i as int), collect_read, collect_write) == Ok::<
                    ExtractedModel,
                    Error,
                >(out@),
            decreases chain@.len() - i,
        {
            let d = chain[i];
            proof {
                let next = chain@.subrange(0, i + 1);
                assert(next.drop_last() =~= chain@.subrange(0, i as int));
                assert(next.last() == d);
                if gather(mem@, self.mem(), next, collect_read, collect_write) is Err {
                    lemma_gather_prefix(mem@, self.mem(), chain@, i + 1, collect_read, collect_write);
                }
            }
            let write = d.flags & VIRTQ_DESC_F_WRITE != 0;
            let collect = if write {
                collect_read
            } else {
                collect_write
            };
            if d.len as u64 > usize::MAX as u64 {
                proof {
                    if mem@.stored(self.mem(), d.addr as int, d.len as int) {
                        mem@.lemma_locate(self.mem(), d.addr as int, d.len as int);
                    }
                }
                return Err(Error::OutOfRange);
            }
            let bytes = if collect {
                match mem.load_bytes(self.memory, d.addr, d.len as usize) {
                    Some(b) => b,
                    None => {
                        return Err(Error::OutOfRange);
                    },
                }
            } else {
                if !mem.is_stored(self.memory, d.addr, d.len as usize) {
                    return Err(Error::OutOfRange);
                }
                Vec::new()
            };
            if write {
                if d.len > u32::MAX - out.read_len {
                    return Err(Error::MalformedDescriptor);
                }
                out.read_descs.push(DescMeta { addr: d.addr, len: d.len });
                if collect_read {
                    append(&mut out.read_buf, &bytes);
                }
                out.read_len = out.read_len + d.len;
            } else {
                if d.len > u32::MAX - out.write_len {
                    return Err(Error::MalformedDescriptor);
                }
                out.write_descs.push(DescMeta { addr: d.addr, len: d.len });
                if collect_write {
                    append(&mut out.write_buf, &bytes);
                }
                out.write_len = out.write_len + d.len;
            }
            i += 1;
        }
        assert(chain@.subrange(0, chain@.len() as int) =~= chain@);
        Ok(out)
    }
}

/// A failure among the first descriptors of a chain is the failure of the
/// whole chain.
pub proof fn lemma_gather_prefix<D: IoAccess>(
    m: FabricModel<D>,
    mem: int,
    chain: Seq<Descriptor>,
    i: int,
    collect_read: bool,
    collect_write: bool,
)
    requires
        0 <= i <= chain.len(),
        gather(m, mem, chain.subrange(0, i), collect_read, collect_write) is Err,
    ensures
        gather(m, mem, chain, collect_read, collect_write) == gather(
            m,
            mem,
            chain.subrange(0, i),
            collect_read,
            collect_write,
        ),
    decreases chain.len() - i,
{
    if i == chain.len() {
        assert(chain.subrange(0, i) =~= chain);
    } else {
        assert(chain.drop_last().subrange(0, i) =~= chain.subrange(0, i));
        lemma_gather_prefix(m, mem, chain.drop_last(), i, collect_read, collect_write);
    }
}

/// Where both sides are collected, each buffer holds as many bytes as its
/// side is long.
pub proof fn lemma_gather_lengths<D: IoAccess>(m: FabricModel<D>, mem: int, chain: Seq<Descriptor>)
    requires
        m.wf(),
        gather(m, mem, chain, true, true) is Ok,
    ensures
        gather(m, mem, chain, true, true)->Ok_0.read_buf.len() == gather(
            m,
            mem,
            chain,
            true,
            true,
        )->Ok_0.read_len,
        gather(m, mem, chain, true, true)->Ok_0.write_buf.len() == gather(
            m,
            mem,
            chain,
            true,
            true,
        )->Ok_0.write_len,
    decreases chain.len(),
{
    if chain.len() > 0 {
        lemma_gather_lengths(m, mem, chain.drop_last());
        let d = chain.last();
        m.lemma_locate(mem, d.addr as int, d.len as int);
    }
}

/// A chain that can be gathered belongs to a queue that is ready and has
/// entries; where both sides are collected, each buffer holds as many bytes
/// as its side is long.
pub proof fn lemma_extract_lengths<D: IoAccess>(
    q: Queue,
    m: FabricModel<D>,
    head: int,
    collect_read: bool,
    collect_write: bool,
)
    requires
        m.wf(),
        q.extract_spec(m, head, collect_read, collect_write) is Ok,
    ensures
        q.ready,
        q.num != 0,
        collect_read && collect_write ==> {
            let g = q.extract_spec(m, head, collect_read, collect_write)->Ok_0;
            g.read_buf.len() == g.read_len && g.write_buf.len() == g.write_len
        },
{
    if collect_read && collect_write {
        lemma_gather_lengths(m, q.mem(), q.chain(m, head)->Ok_0);
    }
}

/// Appends the bytes of `src` to `dst`.
pub fn append(dst: &mut Vec<u8>, src: &Vec<u8>)
    ensures
        final(dst)@ == old(dst)@ + src@,
{
    let mut i: usize = 0;
    assert(dst@ =~= old(dst)@ + src@.subrange(0, 0));
    while i < src.len()
        invariant
            i <= src@.len(),
            dst@ == old(dst)@ + src@.subrange(0, i as int),
        decreases src@.len() - i,
    {
        dst.push(src[i]);
        assert(dst@ =~= old(dst)@ + src@.subrange(0, i + 1));
        i += 1;
    }
    assert(src@.subrange(0, src@.len() as int) =~= src@);
}

/// The lesser of a buffer's length and what is left to write.
pub open spec fn piece(len: u32, left: int) -> int {
    if len < left {
        len as int
    } else {
        left
    }
}

/// Whether guest memory holds every range that `scatter` writes.
pub open spec fn scatter_ok<D: IoAccess>(m: FabricModel<D>, mem: int, descs: Seq<DescMeta>, left: int) -> bool
    decreases descs.len(),
{
    if descs.len() == 0 || left <= 0 {
        true
    } else {
        let n = piece(descs[0].len, left);
        (n > 0 ==> m.stored(mem, descs[0].addr as int, n)) && scatter_ok(
            m,
            mem,
            descs.drop_first(),
            left - n,
        )
    }
}

/// Guest memory after `data` is scattered across the buffers `descs` in
/// their order: each buffer takes as much of what is left as it can hold.
pub open spec fn scatter<D: IoAccess>(m: FabricModel<D>, mem: int, descs: Seq<DescMeta>, data: Seq<u8>) -> FabricModel<D>
    decreases descs.len(),
{
    if descs.len() == 0 || data.len() == 0 {
        m
    } else {
        let n = piece(descs[0].len, data.len() as int);
        let next = if n > 0 {
            m.poke(mem, descs[0].addr as int, data.subrange(0, n))
        } else {
            m
        };
        scatter(next, mem, descs.drop_first(), data.subrange(n, data.len() as int))
    }
}

/// The number of bytes that `scatter` writes.
pub open spec fn scattered(descs: Seq<DescMeta>, left: int) -> int
    decreases descs.len(),
{
    if descs.len() == 0 || left <= 0 {
        0
    } else {
        let n = piece(descs[0].len, left);
        n + scattered(descs.drop_first(), left - n)
    }
}

/// A write to guest memory does not change which ranges it holds.
pub proof fn lemma_scatter_ok_poke<D: IoAccess>(
    m: FabricModel<D>,
    mem: int,
    addr: int,
    data: Seq<u8>,
    descs: Seq<DescMeta>,
    left: int,
)
    requires
        m.wf(),
        m.stored(mem, addr, data.len() as int),
    ensures
        scatter_ok(m.poke(mem, addr, data), mem, descs, left) == scatter_ok(m, mem, descs, left),
    decreases descs.len(),
{
    if descs.len() == 0 || left <= 0 {
    } else {
        let n = piece(descs[0].len, left);
        m.lemma_poke(mem, addr, data, mem, descs[0].addr as int, n);
        lemma_scatter_ok_poke(m, mem, addr, data, descs.drop_first(), left - n);
    }
}

/// The bytes of `data` from index `from` up to index `to`.
pub fn part_of(data: &Vec<u8>, from: usize, to: usize) -> (out: Vec<u8>)
    requires
        from <= to <= data@.len(),
    ensures
        out@ == data@.subrange(from as int, to as int),
{
    let mut out: Vec<u8> = Vec::new();
    let mut i: usize = from;
    assert(out@ =~= data@.subrange(from as int, from as int));
    while i < to
        invariant
            from <= i <= to <= data@.len(),
            out@ == data@.subrange(from as int, i as int),
        decreases to - i,
    {
        out.push(data[i]);
        assert(out@ =~= data@.subrange(from as int, i + 1));
        i += 1;
    }
    out
}

impl Queue {
    /// Scatters `data` across the buffers `descs` in their order, stopping
    /// when `data` is used up, and gives the number of bytes written.
    ///
    /// Fails with `OutOfRange`, before anything is written, when guest
    /// memory does not hold a range that would be written.
    pub fn copy_to<D: IoAccess>(&self, mem: &mut Fabric<D>, descs: &Vec<DescMeta>, data: &Vec<u8>) -> (r:
        Result<usize, Error>)
        requires
            old(mem).wf(),
        ensures
            final(mem).wf(),
            scatter_ok(old(mem)@, self.mem(), descs@, data@.len() as int) ==> r == Ok::<usize, Error>(
                scattered(descs@, data@.len() as int) as usize,
            ) && final(mem)@ == scatter(old(mem)@, self.mem(), descs@, data@),
            !scatter_ok(old(mem)@, self.mem(), descs@, data@.len() as int) ==> r == Err::<usize, Error>(
                Error::OutOfRange,
            ) && final(mem)@ == old(mem)@,
    {
        let total = data.len();
        let mut i: usize = 0;
        let mut off: usize = 0;
        assert(descs@.subrange(0, descs@.len() as int) =~= descs@);
        while i < descs.len() && off < total
            invariant
                mem.wf(),
                *mem == *old(mem),
                i <= descs@.len(),
                off <= total,
                total == data@.len(),
                scatter_ok(mem@, self.mem(), descs@, total as int) == scatter_ok(
                    mem@,
                    self.mem(),
                    descs@.subrange(i as int, descs@.len() as int),
                    total - off,
                ),
            decreases descs@.len() - i,
        {
            let d = descs[i];
            let left = total - off;
            let n = if (d.len as u64) < left as u64 {
                d.len as usize
            } else {
                left
            };
            proof {
                let rest = descs@.subrange(i as int, descs@.len() as int);
                assert(rest[0] == d);
                assert(rest.drop_first() =~= descs@.subrange(i + 1, descs@.len() as int));
            }
            if n > 0 && !mem.is_stored(self.memory, d.addr, n) {
                return Err(Error::OutOfRange);
            }
            off = off + n;
            i += 1;
        }
        let ghost start = mem@;
        let mut i: usize = 0;
        let mut off: usize = 0;
        assert(data@.subrange(0, total as int) =~= data@);
        while i < descs.len() && off < total
            invariant
                mem.wf(),
                i <= descs@.len(),
                off <= total,
                total == data@.len(),
                scatter_ok(mem@, self.mem(), descs@.subrange(i as int, descs@.len() as int), total - off),
                scatter(start, self.mem(), descs@, data@) == scatter(
                    mem@,
                    self.mem(),
                    descs@.subrange(i as int, descs@.len() as int),
                    data@.subrange(off as int, total as int),
                ),
                scattered(descs@, total as int) == off + scattered(
                    descs@.subrange(i as int, descs@.len() as int),
                    total - off,
                ),
            decreases descs@.len() - i,
        {
            let d = descs[i];
            let left = total - off;
            let n = if (d.len as u64) < left as u64 {
                d.len as usize
            } else {
                left
            };
            let ghost before = mem@;
            proof {
                let rest = descs@.subrange(i as int, descs@.len() as int);
                let tail = data@.subrange(off as int, total as int);
                assert(rest[0] == d);
                assert(rest.drop_first() =~= descs@.subrange(i + 1, descs@.len() as int));
                assert(tail.subrange(0, n as int) =~= data@.subrange(off as int, off + n));
                assert(tail.subrange(n as int, tail.len() as int) =~= data@.subrange(off + n, total as int));
            }
            if n > 0 {
                let bytes = part_of(data, off, off + n);
                proof {
                    lemma_scatter_ok_poke(
                        before,
                        self.mem(),
                        d.addr as int,
                        bytes@,
                        descs@.subrange(i + 1, descs@.len() as int),
                        total - off - n,
                    );
                }
                let ok = mem.store_bytes(self.memory, d.addr, bytes.as_slice());
                assert(ok);
            }
            off = off + n;
            i += 1;
        }
        Ok(off)
    }

    /// The index that the used ring publishes.
    pub open spec fn used_idx<D: IoAccess>(self, m: FabricModel<D>) -> int {
        le_value(m.peek(self.mem(), self.used_addr + 2, 2)) as int
    }

    /// The address of the used ring's entry `slot`.
    pub open spec fn used_entry_at(self, slot: int) -> int {
        self.used_addr + 4 + 8 * slot
    }

    /// Whether guest memory holds the used ring's index and the entry that
    /// the index points at.
    pub open spec fn used_ok<D: IoAccess>(self, m: FabricModel<D>) -> bool {
        &&& m.stored(self.mem(), self.used_addr + 2, 2)
        &&& m.stored(self.mem(), self.used_entry_at(self.used_idx(m) % (self.num as int)), 8)
    }

    /// Guest memory after the entry `(head, len)` joins the used ring: the
    /// entry is written at the place that the index points at, then the
    /// index moves one on.
    pub open spec fn used_with<D: IoAccess>(self, m: FabricModel<D>, head: u16, len: u32) -> FabricModel<D> {
        let idx = self.used_idx(m);
        m.poke(
            self.mem(),
            self.used_entry_at(idx % (self.num as int)),
            le_bytes(head as nat, 4) + le_bytes(len as nat, 4),
        ).poke(self.mem(), self.used_addr + 2, le_bytes(((idx + 1) % 0x1_0000) as nat, 2))
    }

    /// Appends `(desc_head, len)` to the used ring and then publishes the
    /// ring's index, moved one on.
    ///
    /// Fails with `NotReady` on a queue that is not ready, else with
    /// `MalformedDescriptor` on a queue of size zero, else with `OutOfRange`
    /// when guest memory does not hold the index or the entry. A failed call
    /// changes nothing.
    pub fn set_used<D: IoAccess>(&self, mem: &mut Fabric<D>, desc_head: u16, len: u32) -> (r: Result<(), Error>)
        requires
            old(mem).wf(),
        ensures
            final(mem).wf(),
            r is Err ==> final(mem)@ == old(mem)@,
            !self.ready ==> r == Err::<(), Error>(Error::NotReady),
            self.ready && self.num == 0 ==> r == Err::<(), Error>(Error::MalformedDescriptor),
            self.ready && self.num != 0 && !self.used_ok(old(mem)@) ==> r == Err::<(), Error>(
                Error::OutOfRange,
            ),
            self.ready && self.num != 0 && self.used_ok(old(mem)@) ==> r is Ok && final(mem)@
                == self.used_with(old(mem)@, desc_head, len),
    {
        if !self.ready {
            return Err(Error::NotReady);
        }
        if self.num == 0 {
            return Err(Error::MalformedDescriptor);
        }
        let idx = match fetch(mem, self.memory, self.used_addr, 2, 2) {
            Some(bytes) => {
                proof {
                    crate::access::lemma_le_value_bound(bytes@);
                    crate::access::lemma_pow256_values();
                }
                crate::access::decode(&bytes)
            },
            None => {
                return Err(Error::OutOfRange);
            },
        };
        let slot = idx % (self.num as u64);
        let off = 4 + 8 * slot;
        if off > u64::MAX - self.used_addr {
            proof {
                if mem@.live_region(self.mem()) {
                    assert(mem@.region_wf(self.mem()));
                }
            }
            return Err(Error::OutOfRange);
        }
        let entry = self.used_addr + off;
        if !mem.is_stored(self.memory, entry, 8) {
            return Err(Error::OutOfRange);
        }
        let mut bytes = crate::access::encode(desc_head as u64, 4);
        let tail = crate::access::encode(len as u64, 4);
        append(&mut bytes, &tail);
        let ghost before = mem@;
        proof {
            crate::access::lemma_le_bytes_len(desc_head as nat, 4);
            crate::access::lemma_le_bytes_len(len as nat, 4);
            before.lemma_poke(self.mem(), entry as int, bytes@, self.mem(), self.used_addr + 2, 2);
        }
        let ok = mem.store_bytes(self.memory, entry, bytes.as_slice());
        assert(ok);
        let next = if idx == 0xffff {
            0
        } else {
            idx + 1
        };
        let ok = mem.store_value(self.memory, self.used_addr + 2, next, 2);
        assert(ok);
        Ok(())
    }

    /// The index that the available ring publishes.
    pub open spec fn avail_idx<D: IoAccess>(self, m: FabricModel<D>) -> int {
        le_value(m.peek(self.mem(), self.avail_addr + 2, 2)) as int
    }

    /// The number of heads that the driver has published since the device's
    /// cursor, at most as many as the queue has entries.
    pub open spec fn pending<D: IoAccess>(self, m: FabricModel<D>) -> int {
        let p = (self.avail_idx(m) - self.last_avail_idx) % 0x1_0000;
        if p > self.num {
            self.num as int
        } else {
            p
        }
    }

    /// The address of the available ring's entry for the `j`-th head after
    /// the device's cursor.
    pub open spec fn avail_slot(self, j: int) -> int {
        self.avail_addr + 4 + 2 * ((self.last_avail_idx + j) % (self.num as int))
    }

    /// Whether guest memory holds the available ring's index and the
    /// entries of the pending heads.
    pub open spec fn avail_ok<D: IoAccess>(self, m: FabricModel<D>) -> bool {
        &&& m.stored(self.mem(), self.avail_addr + 2, 2)
        &&& forall|j: int| 0 <= j < self.pending(m) ==> m.stored(self.mem(), #[trigger] self.avail_slot(j), 2)
    }

    /// The pending heads, in the order in which the driver published them.
    pub open spec fn avail_heads<D: IoAccess>(self, m: FabricModel<D>) -> Seq<u16> {
        Seq::new(
            self.pending(m) as nat,
            |j: int| le_value(m.peek(self.mem(), self.avail_slot(j), 2)) as u16,
        )
    }

    /// The descriptor heads that the driver has published since the device's
    /// cursor, in published order, at most as many as the queue has entries.
    ///
    /// Fails with `NotReady` on a queue that is not ready, else with
    /// `OutOfRange` when guest memory does not hold the ring's index or one
    /// of those entries.
    pub fn avail_iter<D: IoAccess>(&self, mem: &Fabric<D>) -> (r: Result<Vec<u16>, Error>)
        requires
            mem.wf(),
        ensures
            !self.ready ==> r == Err::<Vec<u16>, Error>(Error::NotReady),
            self.ready && !self.avail_ok(mem@) ==> r == Err::<Vec<u16>, Error>(Error::OutOfRange),
            self.ready && self.avail_ok(mem@) ==> (r matches Ok(heads) && heads@ == self.avail_heads(
                mem@,
            )),
    {
        if !self.ready {
            return Err(Error::NotReady);
        }
        let idx = match fetch(mem, self.memory, self.avail_addr, 2, 2) {
            Some(bytes) => {
                proof {
                    crate::access::lemma_le_value_bound(bytes@);
                    crate::access::lemma_pow256_values();
                }
                crate::access::decode(&bytes)
            },
            None => {
                return Err(Error::OutOfRange);
            },
        };
        let last = self.last_avail_idx as u64;
        let published = if idx >= last {
            idx - last
        } else {
            0x1_0000 - last + idx
        };
        let count = if published > self.num as u64 {
            self.num as u64
        } else {
            published
        };
        assert(count == self.pending(mem@));
        let mut heads: Vec<u16> = Vec::new();
        let mut j: u64 = 0;
        while j < count
            invariant
                mem.wf(),
                self.ready,
                j <= count,
                count == self.pending(mem@),
                count <= self.num,
                last == self.last_avail_idx,
                mem@.stored(self.mem(), self.avail_addr + 2, 2),
                heads@.len() == j,
                forall|x: int| 0 <= x < j ==> mem@.stored(self.mem(), #[trigger] self.avail_slot(x), 2),
                forall|x: int|
                    0 <= x < j ==> #[trigger] heads@[x] == le_value(
                        mem@.peek(self.mem(), self.avail_slot(x), 2),
                    ) as u16,
            decreases count - j,
        {
            let slot = (last + j) % (self.num as u64);
            match fetch(mem, self.memory, self.avail_addr, 4 + 2 * slot, 2) {
                Some(bytes) => {
                    proof {
                        crate::access::lemma_le_value_bound(bytes@);
                        crate::access::lemma_pow256_values();
                        assert(self.avail_slot(j as int) == self.avail_addr + (4 + 2 * slot));
                    }
                    let v = crate::access::decode(&bytes);
                    heads.push(v as u16);
                },
                None => {
                    assert(self.avail_slot(j as int) == self.avail_addr + (4 + 2 * slot));
                    return Err(Error::OutOfRange);
                },
            }
            j += 1;
        }
        assert(heads@ =~= self.avail_heads(mem@));
        Ok(heads)
    }
}

} // verus!
