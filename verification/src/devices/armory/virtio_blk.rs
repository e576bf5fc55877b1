//! The virtio block device.
//!
//! A request is a descriptor chain that begins with a header of sixteen
//! bytes for the device to read. The device reads or writes its disk at the
//! sector that the header names and tells the driver, through a status byte
//! and the used ring, how it went. The status of a read is the last byte
//! that the device writes; the status of a write goes to the address of the
//! first buffer that the device reads.

use crate::access::{le_bytes, le_value, IoAccess};
use crate::error::Error;
use crate::irq::IrqVecSender;
use crate::region::{overwrite, Fabric, FabricModel, Region};
use crate::virtio::device::{
    handled, notified, Action, Device, Notified, QueueClient, Served, World, REG_CONFIG,
};
use crate::virtio::queue::{scatter, scatter_ok, DescMeta, ExtractedModel, Queue, QueueSetting};
use vstd::prelude::*;

verus! {

/// The request reads the disk.
pub const VIRTIO_BLK_T_IN: u32 = 0;

/// The request writes the disk.
pub const VIRTIO_BLK_T_OUT: u32 = 1;

/// The bytes of a sector.
pub const VIRTIO_BLK_SECTOR_SIZE: u64 = 512;

/// The status of a request that the disk carried out.
pub const VIRTIO_BLK_S_OK: u8 = 0;

/// The status of a request that the disk refused.
pub const VIRTIO_BLK_S_IOERR: u8 = 1;

/// The bytes of a request header.
pub const VIRTIO_BLK_HEADER_SIZE: usize = 16;

/// The header of a request.
#[derive(Clone, Copy, Debug, Default, PartialEq, Eq, Structural)]
pub struct VirtIOBlkHeader {
    pub ty: u32,
    pub ioprio: u32,
    pub sector_num: u64,
}

impl VirtIOBlkHeader {
    /// The header that sixteen bytes spell: the type in the first four, the
    /// priority in the next four, the sector in the last eight, each least
    /// significant byte first.
    pub open spec fn decode(bytes: Seq<u8>) -> VirtIOBlkHeader {
        VirtIOBlkHeader {
            ty: le_value(bytes.subrange(0, 4)) as u32,
            ioprio: le_value(bytes.subrange(4, 8)) as u32,
            sector_num: le_value(bytes.subrange(8, 16)) as u64,
        }
    }

    /// The byte of the disk at which the sector begins, cut to 64 bits.
    pub open spec fn disk_offset(self) -> u64 {
        ((self.sector_num * VIRTIO_BLK_SECTOR_SIZE) % 0x1_0000_0000_0000_0000) as u64
    }

    /// The header that the first sixteen bytes of `bytes` spell.
    pub fn parse(bytes: &Vec<u8>) -> (h: VirtIOBlkHeader)
        requires
            bytes@.len() >= 16,
        ensures
            h == Self::decode(bytes@.subrange(0, 16)),
    {
        let ghost s = bytes@.subrange(0, 16);
        proof {
            assert(s.subrange(0, 4) =~= bytes@.subrange(0, 4));
            assert(s.subrange(4, 8) =~= bytes@.subrange(4, 8));
            assert(s.subrange(8, 16) =~= bytes@.subrange(8, 16));
            crate::access::lemma_le_value_bound(s.subrange(0, 4));
            crate::access::lemma_le_value_bound(s.subrange(4, 8));
            crate::access::lemma_le_value_bound(s.subrange(8, 16));
            crate::access::lemma_pow256_values();
        }
        let ty = crate::virtio::queue::field(bytes, 0, 4);
        let ioprio = crate::virtio::queue::field(bytes, 4, 4);
        let sector_num = crate::virtio::queue::field(bytes, 8, 8);
        VirtIOBlkHeader { ty: ty as u32, ioprio: ioprio as u32, sector_num }
    }

    /// The byte of the disk at which the sector begins, cut to 64 bits.
    pub fn offset(&self) -> (o: u64)
        ensures
            o == self.disk_offset(),
    {
        let wide = (self.sector_num as u128) * (VIRTIO_BLK_SECTOR_SIZE as u128);
        (wide % 0x1_0000_0000_0000_0000u128) as u64
    }
}

/// How the device treats its disk image.
#[derive(Clone, Copy, Debug, PartialEq, Eq, Structural)]
pub enum VirtIOBlkConfig {
    /// The image file is read and never written.
    RO,
    /// The image file is read and written.
    RW,
    /// The image is copied into memory; writes are lost on teardown.
    SNAPSHOT,
}

impl VirtIOBlkConfig {
    /// The mode that `val` names: `"ro"` and `"rw"` name themselves,
    /// anything else the snapshot.
    pub fn new(val: &str) -> (c: VirtIOBlkConfig)
        ensures
            c == if val@ == "ro"@ {
                VirtIOBlkConfig::RO
            } else if val@ == "rw"@ {
                VirtIOBlkConfig::RW
            } else {
                VirtIOBlkConfig::SNAPSHOT
            },
    {
        let key = val.to_owned();
        if key == "ro".to_owned() {
            VirtIOBlkConfig::RO
        } else if key == "rw".to_owned() {
            VirtIOBlkConfig::RW
        } else {
            VirtIOBlkConfig::SNAPSHOT
        }
    }
}

/// A disk that lives in memory: a copy of the image, which takes the writes.
pub struct VirtIOBlkDiskSnapshot {
    snapshot: Vec<u8>,
}

impl VirtIOBlkDiskSnapshot {
    /// The bytes of the disk.
    pub closed spec fn image(&self) -> Seq<u8> {
        self.snapshot@
    }

    /// A disk that holds `snapshot`.
    pub fn new(snapshot: Vec<u8>) -> (d: VirtIOBlkDiskSnapshot)
        ensures
            d.image() == snapshot@,
    {
        VirtIOBlkDiskSnapshot { snapshot }
    }

    /// The number of bytes of the disk.
    pub fn len(&self) -> (n: usize)
        ensures
            n == self.image().len(),
    {
        self.snapshot.len()
    }

    /// The bytes of the disk.
    pub fn data(&self) -> (d: &Vec<u8>)
        ensures
            d@ == self.image(),
    {
        &self.snapshot
    }
}

impl IoAccess for VirtIOBlkDiskSnapshot {
    open spec fn inv(&self) -> bool {
        true
    }

    /// A read inside the image gives its bytes and changes nothing; a read
    /// that passes its end is refused.
    open spec fn read_post(
        pre: Self,
        post: Self,
        offset: int,
        len: int,
        out: Seq<u8>,
        r: Result<usize, String>,
    ) -> bool {
        &&& post.image() == pre.image()
        &&& if offset + len <= pre.image().len() {
            r == Ok::<usize, String>(len as usize) && out == pre.image().subrange(offset, offset + len)
        } else {
            r is Err
        }
    }

    /// A write inside the image replaces its bytes there; a write that
    /// passes its end is refused and changes nothing.
    open spec fn write_post(pre: Self, post: Self, offset: int, data: Seq<u8>, r: Result<usize, String>) -> bool {
        if offset + data.len() <= pre.image().len() {
            r == Ok::<usize, String>(data.len() as usize) && post.image() == overwrite(
                pre.image(),
                offset,
                data,
            )
        } else {
            r is Err && post.image() == pre.image()
        }
    }

    fn read(&mut self, offset: u64, data: &mut Vec<u8>) -> (r: Result<usize, String>) {
        let size = self.snapshot.len();
        let len = data.len();
        if offset > size as u64 || len > size - offset as usize {
            return Err("out of range!".to_owned());
        }
        crate::region::load(&self.snapshot, offset as usize, data);
        Ok(len)
    }

    fn write(&mut self, offset: u64, data: &[u8]) -> (r: Result<usize, String>) {
        let size = self.snapshot.len();
        let len = data.len();
        if offset > size as u64 || len > size - offset as usize {
            return Err("out of range!".to_owned());
        }
        crate::region::store(&mut self.snapshot, offset as usize, data);
        Ok(len)
    }
}

/// The text that tells of a request of the unknown type `ty`.
pub uninterp spec fn invalid_type_text(ty: u32) -> Seq<char>;

/// The message for a request of the unknown type `ty`, made by `format!`
/// from `"invalid block ty {:#x}!"`. Nothing is claimed of the text but
/// that it depends on `ty` alone.
#[verifier::external_body]
fn invalid_type_message(ty: u32) -> (msg: String)
    ensures
        msg@ == invalid_type_text(ty),
{
    format!("invalid block ty {:#x}!", ty)
}

/// What a descriptor chain asks of the block device.
pub enum Parsed {
    /// The chain cannot be walked or gathered.
    Fail(Error),
    /// The device reads fewer bytes than a header has.
    NoHeader,
    /// A read for which the device can write nowhere, so that it has no
    /// place for the status.
    NoStatus,
    /// The header names a type that the device does not know; the status
    /// goes to `slot`, if the device can write anywhere.
    Unknown { ty: u32, slot: Option<u64> },
    /// Read the disk from `offset` on into the buffers `descs`, `len` bytes
    /// in all, of which the last is the status.
    In { offset: u64, descs: Seq<DescMeta>, len: u32 },
    /// Write `data` to the disk from `offset` on and put the status at
    /// `status_addr`, the address of the first buffer that the device reads.
    Out { offset: u64, data: Seq<u8>, status_addr: u64 },
}

/// The usual place of the status: the last byte that the device can write,
/// that is, the last byte of the last of `descs` that is not empty.
pub open spec fn status_slot(descs: Seq<DescMeta>) -> Option<u64>
    decreases descs.len(),
{
    if descs.len() == 0 {
        None
    } else if descs.last().len > 0 && descs.last().addr + descs.last().len - 1 <= u64::MAX {
        Some((descs.last().addr + descs.last().len - 1) as u64)
    } else {
        status_slot(descs.drop_last())
    }
}

/// The usual place of the status among `descs`.
pub fn find_status_slot(descs: &Vec<DescMeta>) -> (slot: Option<u64>)
    ensures
        slot == status_slot(descs@),
{
    let mut i: usize = descs.len();
    assert(descs@.subrange(0, i as int) =~= descs@);
    while i > 0
        invariant
            i <= descs@.len(),
            status_slot(descs@) == status_slot(descs@.subrange(0, i as int)),
        decreases i,
    {
        let d = descs[i - 1];
        proof {
            let part = descs@.subrange(0, i as int);
            assert(part.last() == d);
            assert(part.drop_last() =~= descs@.subrange(0, i - 1));
        }
        if d.len > 0 && d.len as u64 - 1 <= u64::MAX - d.addr {
            return Some(d.addr + (d.len as u64 - 1));
        }
        i -= 1;
    }
    None
}

/// What a gathered chain asks for: the header is the first sixteen bytes
/// that the device reads, what follows them is the data of a write.
pub open spec fn classify(x: Result<ExtractedModel, Error>) -> Parsed {
    match x {
        Err(e) => Parsed::Fail(e),
        Ok(g) => {
            if g.write_len < 16 || g.write_descs.len() == 0 {
                Parsed::NoHeader
            } else {
                let header = VirtIOBlkHeader::decode(g.write_buf.subrange(0, 16));
                if header.ty == VIRTIO_BLK_T_IN {
                    if g.read_len == 0 {
                        Parsed::NoStatus
                    } else {
                        Parsed::In { offset: header.disk_offset(), descs: g.read_descs, len: g.read_len }
                    }
                } else if header.ty == VIRTIO_BLK_T_OUT {
                    Parsed::Out {
                        offset: header.disk_offset(),
                        data: g.write_buf.subrange(16, g.write_buf.len() as int),
                        status_addr: g.write_descs[0].addr,
                    }
                } else {
                    Parsed::Unknown { ty: header.ty, slot: status_slot(g.read_descs) }
                }
            }
        },
    }
}

/// Whether `e` is the error for a chain that asks for nothing the device
/// can do: the chain's own error, or a client error whose message says what
/// is wrong with the request.
pub open spec fn refused(p: Parsed, e: Error) -> bool {
    match p {
        Parsed::Fail(x) => e == x,
        Parsed::NoHeader => e matches Error::ClientError(msg) && msg@ == "invalid block header!"@,
        Parsed::NoStatus => e matches Error::ClientError(msg) && msg@ == "invalid block request!"@,
        Parsed::Unknown { ty, slot } => e matches Error::ClientError(msg) && msg@ == invalid_type_text(
            ty,
        ),
        _ => false,
    }
}

/// A request that the device can answer.
pub enum Request {
    In { offset: u64, descs: Vec<DescMeta>, len: u32 },
    Out { offset: u64, data: Vec<u8>, status_addr: u64 },
    Unknown { ty: u32, slot: Option<u64> },
}

impl View for Request {
    type V = Parsed;

    open spec fn view(&self) -> Parsed {
        match self {
            Request::In { offset, descs, len } => Parsed::In { offset: *offset, descs: descs@, len: *len },
            Request::Out { offset, data, status_addr } => Parsed::Out {
                offset: *offset,
                data: data@,
                status_addr: *status_addr,
            },
            Request::Unknown { ty, slot } => Parsed::Unknown { ty: *ty, slot: *slot },
        }
    }
}

/// What the chain at `head` asks for.
pub open spec fn parsed<D: IoAccess>(queue: Queue, m: FabricModel<D>, head: u16) -> Parsed {
    classify(queue.extract_spec(m, head as int, true, true))
}

/// Reads the request that the chain at `head` holds.
pub fn parse<D: IoAccess>(queue: &Queue, mem: &Fabric<D>, head: u16) -> (r: Result<Request, Error>)
    requires
        mem.wf(),
    ensures
        r matches Ok(req) ==> req@ == parsed(*queue, mem@, head),
        r matches Err(e) ==> refused(parsed(*queue, mem@, head), e) && !(parsed(
            *queue,
            mem@,
            head,
        ) is Unknown),
{
    let x = match queue.extract(mem, head, true, true) {
        Ok(x) => x,
        Err(e) => {
            return Err(e);
        },
    };
    if (x.write_len as usize) < VIRTIO_BLK_HEADER_SIZE || x.write_buf.len() < VIRTIO_BLK_HEADER_SIZE
        || x.write_descs.len() == 0 {
        proof {
            crate::virtio::queue::lemma_extract_lengths(*queue, mem@, head as int, true, true);
        }
        return Err(Error::ClientError("invalid block header!".to_owned()));
    }
    let header = VirtIOBlkHeader::parse(&x.write_buf);
    let offset = header.offset();
    if header.ty == VIRTIO_BLK_T_IN {
        if x.read_len == 0 {
            return Err(Error::ClientError("invalid block request!".to_owned()));
        }
        Ok(Request::In { offset, descs: x.read_descs, len: x.read_len })
    } else if header.ty == VIRTIO_BLK_T_OUT {
        let status_addr = x.write_descs[0].addr;
        let n = x.write_buf.len();
        let data = crate::virtio::queue::part_of(&x.write_buf, VIRTIO_BLK_HEADER_SIZE, n);
        Ok(Request::Out { offset, data, status_addr })
    } else {
        Ok(Request::Unknown { ty: header.ty, slot: find_status_slot(&x.read_descs) })
    }
}

/// The status byte for a disk access that went well, or did not.
pub open spec fn status_of(ok: bool) -> u8 {
    if ok {
        VIRTIO_BLK_S_OK
    } else {
        VIRTIO_BLK_S_IOERR
    }
}

/// Whether a read of `len` bytes went well: the disk said so and left `len`
/// bytes in the buffer.
pub open spec fn read_ok(len: int, got: Seq<u8>, dr: Result<usize, String>) -> bool {
    dr is Ok && got.len() == len
}

/// The `len` bytes that a read hands on: what the disk left in the buffer,
/// or zeros where the disk changed the buffer's length.
pub open spec fn read_bytes(len: int, got: Seq<u8>) -> Seq<u8> {
    if got.len() == len {
        got
    } else {
        Seq::new(len as nat, |i: int| 0u8)
    }
}

/// The client of the block device's queues: it carries requests out on its
/// disk.
pub struct VirtIOBlkQueue<T: IoAccess> {
    /// The region of guest memory in which the status of a write is put.
    pub memory: Region,
    pub disk: T,
    /// The device's own line that a served request raises.
    pub irq_sender: IrqVecSender,
}

impl<T: IoAccess> VirtIOBlkQueue<T> {
    pub fn new(memory: Region, disk: T, irq_sender: IrqVecSender) -> (q: VirtIOBlkQueue<T>)
        ensures
            q.memory == memory,
            q.disk == disk,
            q.irq_sender == irq_sender,
    {
        VirtIOBlkQueue { memory, disk, irq_sender }
    }

    /// Whether `w1` and `r` are what a read request makes of `w0`, given
    /// that the disk access went well or not and gave the bytes `out`: the
    /// bytes and then the status are scattered across the buffers that the
    /// device writes, and the chain is completed with the length of that
    /// side. Where guest memory does not hold those buffers, nothing changes
    /// and the request fails with `OutOfRange`.
    pub open spec fn answers_in<D: IoAccess>(
        self,
        w0: World<D>,
        w1: World<D>,
        head: u16,
        descs: Seq<DescMeta>,
        len: u32,
        ok: bool,
        out: Seq<u8>,
        r: Result<Served, Error>,
    ) -> bool {
        let buffer = out.push(status_of(ok));
        if !scatter_ok(w0.mem, w0.queue.mem(), descs, buffer.len() as int) {
            r == Err::<Served, Error>(Error::OutOfRange) && w1 == w0
        } else {
            w0.device.completes(
                w1.device,
                w0.queue,
                w1.queue,
                scatter(w0.mem, w0.queue.mem(), descs, buffer),
                w1.mem,
                self.irq_sender,
                head,
                len,
                r,
            )
        }
    }

    /// Whether `w1` and `r` are what a write request makes of `w0`, given
    /// that the disk access went well or not: the status is put at
    /// `status_addr`, and the chain is completed with length 1. Where guest
    /// memory does not hold that byte, nothing changes and the request fails
    /// with `OutOfRange`.
    pub open spec fn answers_out<D: IoAccess>(
        self,
        w0: World<D>,
        w1: World<D>,
        head: u16,
        status_addr: u64,
        ok: bool,
        r: Result<Served, Error>,
    ) -> bool {
        if !w0.mem.stored(self.memory.0 as int, status_addr as int, 1) {
            r == Err::<Served, Error>(Error::OutOfRange) && w1 == w0
        } else {
            w0.device.completes(
                w1.device,
                w0.queue,
                w1.queue,
                w0.mem.poke(self.memory.0 as int, status_addr as int, le_bytes(status_of(ok) as nat, 1)),
                w1.mem,
                self.irq_sender,
                head,
                1,
                r,
            )
        }
    }

    /// Whether the disk went from `self.disk` to `disk` by the read that
    /// the request `p` asks for, of all but the last byte of its length,
    /// with the answer `dr` and the buffer `out`, and the rest followed as
    /// `answers_in` says.
    pub open spec fn serves_in<D: IoAccess>(
        self,
        disk: T,
        w0: World<D>,
        w1: World<D>,
        head: u16,
        p: Parsed,
        dr: Result<usize, String>,
        out: Seq<u8>,
        r: Result<Served, Error>,
    ) -> bool {
        &&& T::read_post(self.disk, disk, p->In_offset as int, p->In_len - 1, out, dr)
        &&& self.answers_in(
            w0,
            w1,
            head,
            p->In_descs,
            p->In_len,
            read_ok(p->In_len - 1, out, dr),
            read_bytes(p->In_len - 1, out),
            r,
        )
    }

    /// Whether the disk went from `self.disk` to `disk` by the write that
    /// the request `p` asks for, with the answer `dr`, and the rest followed
    /// as `answers_out` says.
    pub open spec fn serves_out<D: IoAccess>(
        self,
        disk: T,
        w0: World<D>,
        w1: World<D>,
        head: u16,
        p: Parsed,
        dr: Result<usize, String>,
        r: Result<Served, Error>,
    ) -> bool {
        &&& T::write_post(self.disk, disk, p->Out_offset as int, p->Out_data, dr)
        &&& self.answers_out(w0, w1, head, p->Out_status_addr, dr is Ok, r)
    }

    /// Guest memory once a request that the device cannot do is refused: a
    /// request of an unknown type gets the status IOERR at its usual place,
    /// where the device can write and guest memory holds that byte.
    pub open spec fn marked<D: IoAccess>(m: FabricModel<D>, mem: int, p: Parsed) -> FabricModel<D> {
        match p {
            Parsed::Unknown { ty, slot: Some(a) } => if m.stored(mem, a as int, 1) {
                m.poke(mem, a as int, le_bytes(VIRTIO_BLK_S_IOERR as nat, 1))
            } else {
                m
            },
            _ => m,
        }
    }

    /// Whether `disk`, `w1` and `r` are what the chain at `head` makes of
    /// the client and of `w0`.
    ///
    /// Where the device has no line for the client's sender, the request
    /// fails with `OutOfRange` and nothing changes. A chain that asks for
    /// nothing the device can do fails as `refused` says; a request of an
    /// unknown type gets the status IOERR at its usual place, if guest
    /// memory holds that byte, and nothing else changes. A read or a write
    /// is carried out on the disk, whatever the disk answers, and answered
    /// as `serves_in` and `serves_out` say.
    pub open spec fn receives<D: IoAccess>(
        self,
        disk: T,
        w0: World<D>,
        w1: World<D>,
        head: u16,
        r: Result<Served, Error>,
    ) -> bool {
        if self.irq_sender.line >= w0.device.irq_vec.lines() {
            r == Err::<Served, Error>(Error::OutOfRange) && w1 == w0 && disk == self.disk
        } else {
            let p = parsed(w0.queue, w0.mem, head);
            if p is In {
                exists|dr: Result<usize, String>, out: Seq<u8>| #[trigger]
                    self.serves_in(disk, w0, w1, head, p, dr, out, r)
            } else if p is Out {
                exists|dr: Result<usize, String>| #[trigger] self.serves_out(disk, w0, w1, head, p, dr, r)
            } else {
                &&& r is Err
                &&& refused(p, r->Err_0)
                &&& disk == self.disk
                &&& w1 == (World { mem: Self::marked(w0.mem, w0.queue.mem(), p), ..w0 })
            }
        }
    }

    /// Answers a read request whose disk access went well or not, as `ok`
    /// says, and filled `buffer`: appends the status, scatters the buffer
    /// across `descs` and completes the chain; see `answers_in`.
    pub fn answer_in<D: IoAccess>(
        &self,
        device: &mut Device,
        queue: &mut Queue,
        mem: &mut Fabric<D>,
        head: u16,
        descs: &Vec<DescMeta>,
        len: u32,
        ok: bool,
        buffer: Vec<u8>,
    ) -> (r: Result<Served, Error>)
        requires
            old(device).wf(),
            old(mem).wf(),
        ensures
            final(device).wf(),
            final(mem).wf(),
            final(device).queues@ == old(device).queues@,
            self.answers_in(
                World { device: *old(device), queue: *old(queue), mem: old(mem)@ },
                World { device: *final(device), queue: *final(queue), mem: final(mem)@ },
                head,
                descs@,
                len,
                ok,
                buffer@,
                r,
            ),
    {
        let mut buffer = buffer;
        buffer.push(if ok {
            VIRTIO_BLK_S_OK
        } else {
            VIRTIO_BLK_S_IOERR
        });
        match queue.copy_to(mem, descs, &buffer) {
            Err(e) => Err(e),
            Ok(_) => device.complete(self.irq_sender, queue, mem, head, len),
        }
    }

    /// Answers a write request whose disk access went well or not, as `ok`
    /// says: puts the status at `status_addr` and completes the chain; see
    /// `answers_out`.
    pub fn answer_out<D: IoAccess>(
        &self,
        device: &mut Device,
        queue: &mut Queue,
        mem: &mut Fabric<D>,
        head: u16,
        status_addr: u64,
        ok: bool,
    ) -> (r: Result<Served, Error>)
        requires
            old(device).wf(),
            old(mem).wf(),
        ensures
            final(device).wf(),
            final(mem).wf(),
            final(device).queues@ == old(device).queues@,
            self.answers_out(
                World { device: *old(device), queue: *old(queue), mem: old(mem)@ },
                World { device: *final(device), queue: *final(queue), mem: final(mem)@ },
                head,
                status_addr,
                ok,
                r,
            ),
    {
        let status = if ok {
            VIRTIO_BLK_S_OK
        } else {
            VIRTIO_BLK_S_IOERR
        };
        if !mem.store_value(self.memory, status_addr, status as u64, 1) {
            return Err(Error::OutOfRange);
        }
        device.complete(self.irq_sender, queue, mem, head, 1)
    }
}

impl<T: IoAccess, D: IoAccess> QueueClient<D> for VirtIOBlkQueue<T> {
    open spec fn inv(&self) -> bool {
        self.disk.inv()
    }

    /// The client never declines; it keeps its memory and its sender, and
    /// the rest is as `VirtIOBlkQueue::receives` says.
    open spec fn serves(
        pre: Self,
        post: Self,
        w0: World<D>,
        w1: World<D>,
        head: u16,
        r: Result<Option<Served>, Error>,
    ) -> bool {
        &&& post.memory == pre.memory
        &&& post.irq_sender == pre.irq_sender
        &&& !(r matches Ok(None))
        &&& pre.receives(post.disk, w0, w1, head, handled(r))
    }

    /// Carries out the request that the chain at `desc_head` holds; see
    /// `VirtIOBlkQueue::receives`.
    fn receive(
        &mut self,
        device: &mut Device,
        queue: &mut Queue,
        mem: &mut Fabric<D>,
        desc_head: u16,
    ) -> (r: Result<Option<Served>, Error>)
        ensures
            final(self).memory == old(self).memory,
            final(self).irq_sender == old(self).irq_sender,
            !(r matches Ok(None)),
            old(self).receives(
                final(self).disk,
                World { device: *old(device), queue: *old(queue), mem: old(mem)@ },
                World { device: *final(device), queue: *final(queue), mem: final(mem)@ },
                desc_head,
                handled(r),
            ),
    {
        let ghost w0 = World { device: *device, queue: *queue, mem: mem@ };
        if self.irq_sender.line >= device.irq_vec.len() {
            return Err(Error::OutOfRange);
        }
        let request = match parse(queue, mem, desc_head) {
            Ok(request) => request,
            Err(e) => {
                return Err(e);
            },
        };
        match request {
            Request::In { offset, descs, len } => {
                let mut buffer = vec![0u8; (len - 1) as usize];
                let dr = self.disk.read(offset, &mut buffer);
                let ghost out = buffer@;
                let ok = if buffer.len() == (len - 1) as usize {
                    dr.is_ok()
                } else {
                    buffer = vec![0u8; (len - 1) as usize];
                    false
                };
                assert(buffer@ =~= read_bytes(len - 1, out));
                let ghost bytes = buffer@;
                let r = self.answer_in(device, queue, mem, desc_head, &descs, len, ok, buffer);
                proof {
                    let w1 = World { device: *device, queue: *queue, mem: mem@ };
                    assert(ok == read_ok(len - 1, out, dr));
                    assert(self.answers_in(w0, w1, desc_head, descs@, len, ok, bytes, r));
                    assert(old(self).answers_in(w0, w1, desc_head, descs@, len, ok, bytes, r));
                    let p = parsed(w0.queue, w0.mem, desc_head);
                    assert(p == (Parsed::In { offset, descs: descs@, len }));
                    assert(old(self).serves_in(self.disk, w0, w1, desc_head, p, dr, out, r));
                    assert(old(self).receives(self.disk, w0, w1, desc_head, r));
                }
                match r {
                    Ok(s) => Ok(Some(s)),
                    Err(e) => Err(e),
                }
            },
            Request::Out { offset, data, status_addr } => {
                let dr = self.disk.write(offset, data.as_slice());
                let ok = dr.is_ok();
                let r = self.answer_out(device, queue, mem, desc_head, status_addr, ok);
                proof {
                    let w1 = World { device: *device, queue: *queue, mem: mem@ };
                    assert((dr is Ok) == ok);
                    assert(self.answers_out(w0, w1, desc_head, status_addr, ok, r));
                    assert(old(self).answers_out(w0, w1, desc_head, status_addr, ok, r));
                    let p = parsed(w0.queue, w0.mem, desc_head);
                    assert(p == (Parsed::Out { offset, data: data@, status_addr }));
                    assert(old(self).serves_out(self.disk, w0, w1, desc_head, p, dr, r));
                    assert(old(self).receives(self.disk, w0, w1, desc_head, r));
                }
                match r {
                    Ok(s) => Ok(Some(s)),
                    Err(e) => Err(e),
                }
            },
            Request::Unknown { ty, slot } => {
                if let Some(a) = slot {
                    let _ = mem.store_value(queue.memory, a, VIRTIO_BLK_S_IOERR as u64, 1);
                }
                Err(Error::ClientError(invalid_type_message(ty)))
            },
        }
    }
}

/// The number of descriptors of a queue of the block device.
pub const VIRTIO_BLK_QUEUE_SIZE: u16 = 16;

/// The device id of a block device.
pub const VIRTIO_BLK_DEVICE_ID: u32 = 2;

/// The virtio block device: its register file and the client of its queues.
pub struct VirtIOBlk<T: IoAccess> {
    pub virtio_device: Device,
    pub num_sectors: u64,
    pub client: VirtIOBlkQueue<T>,
}

impl<T: IoAccess> VirtIOBlk<T> {
    /// The device is well formed and its disk keeps its invariant.
    pub open spec fn wf(&self) -> bool {
        self.virtio_device.wf() && self.client.disk.inv()
    }

    /// A block device over `disk`, an image of `len` bytes, with
    /// `num_queues` queues of sixteen descriptors in guest memory `memory`.
    /// The device's own line 0 is enabled; the requests raise it. The
    /// capacity is the number of whole sectors of the image.
    pub fn new(memory: Region, irq_sender: IrqVecSender, num_queues: usize, disk: T, len: u64) -> (blk:
        VirtIOBlk<T>)
        requires
            num_queues > 0,
            disk.inv(),
        ensures
            blk.wf(),
            blk.num_sectors == len / VIRTIO_BLK_SECTOR_SIZE,
            blk.client == (VirtIOBlkQueue { memory, disk, irq_sender: IrqVecSender { line: 0 } }),
            blk.virtio_device.memory == memory,
            blk.virtio_device.irq_sender == irq_sender,
            blk.virtio_device.irq_vec.enabled() == seq![true],
            blk.virtio_device.irq_vec.pending() == seq![false],
            blk.virtio_device.device_id == VIRTIO_BLK_DEVICE_ID,
            blk.virtio_device.vendor_id == 0,
            blk.virtio_device.device_features == 0,
            blk.virtio_device.driver_features == 0,
            blk.virtio_device.device_features_sel == 0,
            blk.virtio_device.driver_features_sel == 0,
            blk.virtio_device.queue_sel == 0,
            blk.virtio_device.status == 0,
            blk.virtio_device.config_generation == 0,
            blk.virtio_device.irq_status == 0,
            blk.virtio_device.queues@ == Seq::new(
                num_queues as nat,
                |i: int|
                    Queue {
                        memory,
                        max_queue_size: VIRTIO_BLK_QUEUE_SIZE,
                        ready: false,
                        num: 0,
                        desc_addr: 0,
                        avail_addr: 0,
                        used_addr: 0,
                        last_avail_idx: 0,
                    },
            ),
    {
        let mut virtio_device = Device::new(memory, irq_sender, 1, VIRTIO_BLK_DEVICE_ID, 0, 0);
        virtio_device.irq_vec.set_enable_uncheck(0, true);
        assert(virtio_device.irq_vec.enabled() =~= seq![true]);
        assert(virtio_device.irq_vec.pending() =~= seq![false]);
        let mut i: usize = 0;
        while i < num_queues
            invariant
                i <= num_queues,
                virtio_device.wf(),
                virtio_device.memory == memory,
                virtio_device.irq_sender == irq_sender,
                virtio_device.irq_vec.enabled() == seq![true],
                virtio_device.irq_vec.pending() == seq![false],
                virtio_device.device_id == VIRTIO_BLK_DEVICE_ID,
                virtio_device.vendor_id == 0,
                virtio_device.device_features == 0,
                virtio_device.driver_features == 0,
                virtio_device.device_features_sel == 0,
                virtio_device.driver_features_sel == 0,
                virtio_device.queue_sel == 0,
                virtio_device.status == 0,
                virtio_device.config_generation == 0,
                virtio_device.irq_status == 0,
                virtio_device.queues@ == Seq::new(
                    i as nat,
                    |j: int|
                        Queue {
                            memory,
                            max_queue_size: VIRTIO_BLK_QUEUE_SIZE,
                            ready: false,
                            num: 0,
                            desc_addr: 0,
                            avail_addr: 0,
                            used_addr: 0,
                            last_avail_idx: 0,
                        },
                ),
            decreases num_queues - i,
        {
            let ghost before = virtio_device.queues@;
            virtio_device.add_queue(
                Queue::new(memory, QueueSetting { max_queue_size: VIRTIO_BLK_QUEUE_SIZE }),
            );
            assert(virtio_device.queues@ =~= Seq::new(
                (i + 1) as nat,
                |j: int|
                    Queue {
                        memory,
                        max_queue_size: VIRTIO_BLK_QUEUE_SIZE,
                        ready: false,
                        num: 0,
                        desc_addr: 0,
                        avail_addr: 0,
                        used_addr: 0,
                        last_avail_idx: 0,
                    },
            ));
            i += 1;
        }
        VirtIOBlk {
            virtio_device,
            num_sectors: len / VIRTIO_BLK_SECTOR_SIZE,
            client: VirtIOBlkQueue::new(memory, disk, IrqVecSender { line: 0 }),
        }
    }

    /// The register file of the device.
    pub fn device(&self) -> (d: &Device)
        ensures
            *d == self.virtio_device,
    {
        &self.virtio_device
    }

    /// What a read of the configuration space at `offset` gives: the bytes
    /// of the capacity in sectors, least significant byte first, where the
    /// read lies inside its eight bytes, and `before` unchanged otherwise.
    pub open spec fn config_bytes(&self, offset: u64, before: Seq<u8>) -> Seq<u8> {
        if offset < 8 && offset + before.len() <= 8 {
            le_bytes(self.num_sectors as nat, 8).subrange(offset as int, offset + before.len())
        } else {
            before
        }
    }

    /// Reads the configuration space at `offset` into `data`; see
    /// `config_bytes`.
    pub fn config(&self, offset: u64, data: &mut Vec<u8>)
        ensures
            final(data)@ == self.config_bytes(offset, old(data)@),
    {
        let len = data.len();
        if offset < 8 && len <= 8 - offset as usize {
            let bytes = crate::access::encode(self.num_sectors, 8);
            proof {
                crate::access::lemma_le_bytes_len(self.num_sectors as nat, 8);
            }
            crate::region::load(&bytes, offset as usize, data);
        }
    }

    /// Reads `data.len()` bytes at `addr` of the device: a register below
    /// the configuration space, the configuration from there on.
    pub fn read_bytes(&self, addr: u64, data: &mut Vec<u8>)
        ensures
            final(data)@ == if addr >= REG_CONFIG {
                self.config_bytes((addr - REG_CONFIG) as u64, old(data)@)
            } else {
                self.virtio_device.register_bytes(addr, old(data)@)
            },
    {
        if addr >= REG_CONFIG {
            self.config(addr - REG_CONFIG, data);
        } else {
            self.virtio_device.read_bytes(addr, data);
        }
    }

    /// Writes `data` at `addr` of the device and says what the write asks
    /// of the device's owner: a write of four bytes below the configuration
    /// space is a register write; any other write changes nothing. A notify
    /// is carried out by `notify`.
    pub fn write_bytes(&mut self, addr: u64, data: &[u8]) -> (action: Action)
        requires
            old(self).wf(),
        ensures
            final(self).wf(),
            final(self).num_sectors == old(self).num_sectors,
            final(self).client == old(self).client,
            addr < REG_CONFIG && data@.len() == 4 ==> old(self).virtio_device.written(
                final(self).virtio_device,
                addr,
                crate::virtio::device::word(data@),
                action,
            ),
            !(addr < REG_CONFIG && data@.len() == 4) ==> action == Action::Idle
                && final(self).virtio_device == old(self).virtio_device,
    {
        if addr >= REG_CONFIG {
            return Action::Idle;
        }
        self.virtio_device.write_bytes(addr, data)
    }

    /// Serves the requests that the driver has published in queue `index`;
    /// see `Device::notify` and `VirtIOBlkQueue::receives`.
    pub fn notify<D: IoAccess>(&mut self, mem: &mut Fabric<D>, index: usize) -> (n: Notified)
        requires
            old(self).wf(),
            old(mem).wf(),
        ensures
            final(self).wf(),
            final(mem).wf(),
            final(self).num_sectors == old(self).num_sectors,
            final(self).virtio_device.queues@.len() == old(self).virtio_device.queues@.len(),
            index >= old(self).virtio_device.queues@.len() ==> n.served@.len() == 0 && n.error == Some(
                Error::OutOfRange,
            ) && final(self).virtio_device.queues@ == old(self).virtio_device.queues@,
            index < old(self).virtio_device.queues@.len() ==> {
                let q = old(self).virtio_device.queues@[index as int];
                &&& final(self).virtio_device.queues@ == old(self).virtio_device.queues@.update(
                    index as int,
                    crate::virtio::device::advanced_by(q, n.served@.len()),
                )
                &&& !q.ready ==> n.served@.len() == 0 && n.error == Some(Error::NotReady)
                &&& q.ready && !q.avail_ok(old(mem)@) ==> n.served@.len() == 0 && n.error == Some(
                    Error::OutOfRange,
                )
                &&& q.ready && q.avail_ok(old(mem)@) ==> {
                    let heads = q.avail_heads(old(mem)@);
                    &&& n.served@.len() <= heads.len()
                    &&& crate::virtio::device::used_ids(n.served@) == heads.subrange(
                        0,
                        n.served@.len() as int,
                    )
                    &&& n.error is Some ==> n.served@.len() < heads.len()
                    &&& notified(
                        old(self).virtio_device,
                        final(self).virtio_device,
                        old(self).client,
                        final(self).client,
                        old(mem)@,
                        final(mem)@,
                        index as int,
                        heads,
                        n.served@,
                        n.error,
                    )
                }
            },
    {
        self.virtio_device.notify(&mut self.client, mem, index)
    }
}

} // verus!
