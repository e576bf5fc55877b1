//! The virtio console device.
//!
//! Queue 0 carries input to the guest, queue 1 output from it. Output is
//! collected for the host's text sink; input is installed from what the
//! host's text source gave. The device does not touch the host's terminal
//! itself: its owner drains the collected output and hands the input in.

use crate::access::IoAccess;
use crate::error::Error;
use crate::irq::IrqVecSender;
use crate::region::{Fabric, FabricModel, Region};
use crate::virtio::device::{
    advanced_by, handled, notified, used_ids, Action, Device, Notified, QueueClient, Served, World,
};
use crate::virtio::queue::{Queue, QueueSetting};
use vstd::prelude::*;

verus! {

/// The number of descriptors of a queue of the console.
pub const VIRTIO_CONSOLE_QUEUE_SIZE: u16 = 1;

/// The device id of a console.
pub const VIRTIO_CONSOLE_DEVICE_ID: u32 = 3;

/// The feature that the console offers: it tells its size.
pub const VIRTIO_CONSOLE_F_SIZE: u64 = 1;

/// The most bytes that one poll of the host's text source installs.
pub const VIRTIO_CONSOLE_INPUT_MAX: usize = 128;

/// The index of the queue that carries input to the guest.
pub const VIRTIO_CONSOLE_INPUT_QUEUE: usize = 0;

/// The index of the queue that carries output from the guest.
pub const VIRTIO_CONSOLE_OUTPUT_QUEUE: usize = 1;

/// The client of the input queue. A notify of the input queue asks for
/// nothing: input is installed when the host has some.
pub struct VirtIOConsoleInputQueue {}

impl VirtIOConsoleInputQueue {
    pub fn new() -> (q: VirtIOConsoleInputQueue) {
        VirtIOConsoleInputQueue {  }
    }
}

impl<D: IoAccess> QueueClient<D> for VirtIOConsoleInputQueue {
    open spec fn inv(&self) -> bool {
        true
    }

    /// The client declines every chain and changes nothing.
    open spec fn serves(
        pre: Self,
        post: Self,
        w0: World<D>,
        w1: World<D>,
        head: u16,
        r: Result<Option<Served>, Error>,
    ) -> bool {
        r == Ok::<Option<Served>, Error>(None) && post == pre && w1 == w0
    }

    /// Declines the chain and changes nothing.
    fn receive(
        &mut self,
        device: &mut Device,
        queue: &mut Queue,
        mem: &mut Fabric<D>,
        desc_head: u16,
    ) -> (r: Result<Option<Served>, Error>)
        ensures
            r == Ok::<Option<Served>, Error>(None),
            *final(device) == *old(device),
            final(mem)@ == old(mem)@,
    {
        Ok(None)
    }
}

/// The client of the output queue: it collects what the guest prints.
pub struct VirtIOConsoleOutputQueue {
    /// The region of guest memory that holds the guest's buffers.
    pub memory: Region,
    /// The device's own line that a served chain raises.
    pub irq_sender: IrqVecSender,
    /// What the guest has printed since the output was last taken.
    pub output: Vec<u8>,
}

impl VirtIOConsoleOutputQueue {
    pub fn new(memory: Region, irq_sender: IrqVecSender) -> (q: VirtIOConsoleOutputQueue)
        ensures
            q.memory == memory,
            q.irq_sender == irq_sender,
            q.output@ == Seq::<u8>::empty(),
    {
        VirtIOConsoleOutputQueue { memory, irq_sender, output: Vec::new() }
    }

    /// Hands out what the guest has printed and forgets it.
    pub fn take_output(&mut self) -> (out: Vec<u8>)
        ensures
            out@ == old(self).output@,
            final(self).output@ == Seq::<u8>::empty(),
            final(self).memory == old(self).memory,
            final(self).irq_sender == old(self).irq_sender,
    {
        let mut out: Vec<u8> = Vec::new();
        core::mem::swap(&mut out, &mut self.output);
        out
    }

    /// Whether `output`, `w1` and `r` are what the chain at `head` makes of
    /// the client and of `w0`.
    ///
    /// The chain is the one descriptor at `head`. Its bytes are read from
    /// guest memory and join the collected output, and the chain is
    /// completed with the descriptor's length. Where the device has no line
    /// for the client's sender, where the descriptor cannot be fetched, or
    /// where guest memory does not hold its buffer, the chain fails and
    /// nothing changes.
    pub open spec fn receives<D: IoAccess>(
        self,
        output: Seq<u8>,
        w0: World<D>,
        w1: World<D>,
        head: u16,
        r: Result<Served, Error>,
    ) -> bool {
        if self.irq_sender.line >= w0.device.irq_vec.lines() {
            r == Err::<Served, Error>(Error::OutOfRange) && w1 == w0 && output == self.output@
        } else {
            match w0.queue.desc_result(w0.mem, head as int) {
                Err(e) => r == Err::<Served, Error>(e) && w1 == w0 && output == self.output@,
                Ok(desc) => {
                    if desc.len > 0 && !w0.mem.stored(self.memory.0 as int, desc.addr as int, desc.len as int) {
                        r == Err::<Served, Error>(Error::OutOfRange) && w1 == w0 && output == self.output@
                    } else {
                        &&& output == if desc.len > 0 {
                            self.output@ + w0.mem.peek(self.memory.0 as int, desc.addr as int, desc.len as int)
                        } else {
                            self.output@
                        }
                        &&& w0.device.completes(
                            w1.device,
                            w0.queue,
                            w1.queue,
                            w0.mem,
                            w1.mem,
                            self.irq_sender,
                            head,
                            desc.len,
                            r,
                        )
                    }
                },
            }
        }
    }
}

impl<D: IoAccess> QueueClient<D> for VirtIOConsoleOutputQueue {
    open spec fn inv(&self) -> bool {
        true
    }

    /// The client never declines; it keeps its memory and its sender, and
    /// the rest is as `VirtIOConsoleOutputQueue::receives` says.
    open spec fn serves(
        pre: Self,
        post: Self,
        w0: World<D>,
        w1: World<D>,
        head: u16,
        r: Result<Option<Served>, Error>,
    ) -> bool {
        &&& post.memory == pre.memory
        &&& post.irq_sender == pre.irq_sender
        &&& !(r matches Ok(None))
        &&& pre.receives(post.output@, w0, w1, head, handled(r))
    }

    /// Collects what the descriptor at `desc_head` prints; see
    /// `VirtIOConsoleOutputQueue::receives`.
    fn receive(
        &mut self,
        device: &mut Device,
        queue: &mut Queue,
        mem: &mut Fabric<D>,
        desc_head: u16,
    ) -> (r: Result<Option<Served>, Error>)
        ensures
            final(self).memory == old(self).memory,
            final(self).irq_sender == old(self).irq_sender,
            !(r matches Ok(None)),
            old(self).receives(
                final(self).output@,
                World { device: *old(device), queue: *old(queue), mem: old(mem)@ },
                World { device: *final(device), queue: *final(queue), mem: final(mem)@ },
                desc_head,
                handled(r),
            ),
    {
        if self.irq_sender.line >= device.irq_vec.len() {
            return Err(Error::OutOfRange);
        }
        let desc = match queue.get_desc(mem, desc_head) {
            Ok(desc) => desc,
            Err(e) => {
                return Err(e);
            },
        };
        if desc.len > 0 {
            if desc.len as u64 > usize::MAX as u64 {
                proof {
                    if mem@.stored(self.memory.0 as int, desc.addr as int, desc.len as int) {
                        mem@.lemma_locate(self.memory.0 as int, desc.addr as int, desc.len as int);
                    }
                }
                return Err(Error::OutOfRange);
            }
            match mem.load_bytes(self.memory, desc.addr, desc.len as usize) {
                None => {
                    return Err(Error::OutOfRange);
                },
                Some(bytes) => {
                    crate::virtio::queue::append(&mut self.output, &bytes);
                },
            }
        }
        match device.complete(self.irq_sender, queue, mem, desc_head, desc.len) {
            Ok(s) => Ok(Some(s)),
            Err(e) => {
                Err(e)
            },
        }
    }
}

/// Where input for the guest goes: the chain to complete, the address of
/// its buffer and the most bytes that it takes now.
#[derive(Clone, Copy, Debug, PartialEq, Eq, Structural)]
pub struct InputRequest {
    pub head: u16,
    pub addr: u64,
    pub len: usize,
}

/// The lesser of a buffer's length and the most that one poll installs.
pub open spec fn input_len(len: u32) -> usize {
    if len < VIRTIO_CONSOLE_INPUT_MAX {
        len as usize
    } else {
        VIRTIO_CONSOLE_INPUT_MAX
    }
}

/// The console: its register file and the clients of its two queues.
pub struct VirtIOConsoleDevice {
    pub virtio_device: Device,
    pub input: VirtIOConsoleInputQueue,
    pub output: VirtIOConsoleOutputQueue,
}

impl VirtIOConsoleDevice {
    /// The device is well formed and has its two queues and its line.
    pub open spec fn wf(&self) -> bool {
        self.virtio_device.wf() && self.virtio_device.queues@.len() == 2
            && self.virtio_device.irq_vec.lines() > 0
    }

    /// A console with an input and an output queue of one descriptor each
    /// in guest memory `memory`. The device's own line 0 is enabled; served
    /// chains raise it.
    pub fn new(memory: Region, irq_sender: IrqVecSender) -> (c: VirtIOConsoleDevice)
        ensures
            c.wf(),
            c.output.memory == memory,
            c.output.irq_sender == (IrqVecSender { line: 0 }),
            c.output.output@ == Seq::<u8>::empty(),
            c.virtio_device.memory == memory,
            c.virtio_device.irq_sender == irq_sender,
            c.virtio_device.irq_vec.enabled() == seq![true],
            c.virtio_device.irq_vec.pending() == seq![false],
            c.virtio_device.device_id == VIRTIO_CONSOLE_DEVICE_ID,
            c.virtio_device.vendor_id == 0,
            c.virtio_device.device_features == VIRTIO_CONSOLE_F_SIZE,
            c.virtio_device.driver_features == 0,
            c.virtio_device.device_features_sel == 0,
            c.virtio_device.driver_features_sel == 0,
            c.virtio_device.queue_sel == 0,
            c.virtio_device.status == 0,
            c.virtio_device.config_generation == 0,
            c.virtio_device.irq_status == 0,
            c.virtio_device.queues@ == Seq::new(
                2,
                |i: int|
                    Queue {
                        memory,
                        max_queue_size: VIRTIO_CONSOLE_QUEUE_SIZE,
                        ready: false,
                        num: 0,
                        desc_addr: 0,
                        avail_addr: 0,
                        used_addr: 0,
                        last_avail_idx: 0,
                    },
            ),
    {
        let mut virtio_device = Device::new(
            memory,
            irq_sender,
            1,
            VIRTIO_CONSOLE_DEVICE_ID,
            0,
            VIRTIO_CONSOLE_F_SIZE,
        );
        virtio_device.irq_vec.set_enable_uncheck(0, true);
        assert(virtio_device.irq_vec.enabled() =~= seq![true]);
        assert(virtio_device.irq_vec.pending() =~= seq![false]);
        let input = VirtIOConsoleInputQueue::new();
        let input_queue = Queue::new(memory, QueueSetting { max_queue_size: VIRTIO_CONSOLE_QUEUE_SIZE });
        let output = VirtIOConsoleOutputQueue::new(memory, IrqVecSender { line: 0 });
        let output_queue = Queue::new(memory, QueueSetting { max_queue_size: VIRTIO_CONSOLE_QUEUE_SIZE });
        virtio_device.add_queue(input_queue);
        virtio_device.add_queue(output_queue);
        assert(virtio_device.queues@ =~= Seq::new(
            2,
            |i: int|
                Queue {
                    memory,
                    max_queue_size: VIRTIO_CONSOLE_QUEUE_SIZE,
                    ready: false,
                    num: 0,
                    desc_addr: 0,
                    avail_addr: 0,
                    used_addr: 0,
                    last_avail_idx: 0,
                },
        ));
        VirtIOConsoleDevice { virtio_device, input, output }
    }

    /// The input queue.
    pub open spec fn input_queue(&self) -> Queue {
        self.virtio_device.queues@[0]
    }

    /// What `input_request` gives.
    ///
    /// A queue that is not ready, or without a pending head, asks for
    /// nothing. Otherwise the input goes to the buffer of the last pending
    /// head, at most 128 bytes of it. Fails as `Queue::avail_iter` and
    /// `Queue::get_desc` do.
    pub open spec fn wanted<D: IoAccess>(&self, m: FabricModel<D>) -> Result<Option<InputRequest>, Error> {
        let q = self.input_queue();
        if !q.ready {
            Ok(None)
        } else if !q.avail_ok(m) {
            Err(Error::OutOfRange)
        } else {
            let heads = q.avail_heads(m);
            if heads.len() == 0 {
                Ok(None)
            } else {
                match q.desc_result(m, heads.last() as int) {
                    Err(e) => Err(e),
                    Ok(desc) => Ok(
                        Some(InputRequest { head: heads.last(), addr: desc.addr, len: input_len(desc.len) }),
                    ),
                }
            }
        }
    }

    /// Where input for the guest goes, if the guest has asked for any; see
    /// `wanted`.
    pub fn input_request<D: IoAccess>(&self, mem: &Fabric<D>) -> (r: Result<Option<InputRequest>, Error>)
        requires
            self.wf(),
            mem.wf(),
        ensures
            r == self.wanted(mem@),
    {
        let q = self.virtio_device.queues[VIRTIO_CONSOLE_INPUT_QUEUE];
        if !q.get_ready() {
            return Ok(None);
        }
        let heads = match q.avail_iter(mem) {
            Ok(heads) => heads,
            Err(e) => {
                return Err(e);
            },
        };
        if heads.len() == 0 {
            return Ok(None);
        }
        let head = heads[heads.len() - 1];
        let desc = match q.get_desc(mem, head) {
            Ok(desc) => desc,
            Err(e) => {
                return Err(e);
            },
        };
        let len = if (desc.len as u64) < VIRTIO_CONSOLE_INPUT_MAX as u64 {
            desc.len as usize
        } else {
            VIRTIO_CONSOLE_INPUT_MAX
        };
        Ok(Some(InputRequest { head, addr: desc.addr, len }))
    }

    /// Whether `after`, `m1` and `r` are what the installation of the input
    /// `data` for `request` makes of the console and of guest memory `m0`.
    ///
    /// No input installs nothing. Input is written at the request's
    /// address, and the request's chain is completed with the number of
    /// bytes written. Nothing changes where the input is longer than the
    /// request takes (`OutOfRange`), where the queue is not ready
    /// (`NotReady`) or has no entries (`MalformedDescriptor`), and where
    /// guest memory does not hold the buffer (`OutOfRange`).
    pub open spec fn installs<D: IoAccess>(
        self,
        after: VirtIOConsoleDevice,
        m0: FabricModel<D>,
        m1: FabricModel<D>,
        request: InputRequest,
        data: Seq<u8>,
        r: Result<Option<Served>, Error>,
    ) -> bool {
        let q = self.input_queue();
        let mem = self.virtio_device.memory.0 as int;
        if data.len() == 0 {
            r == Ok::<Option<Served>, Error>(None) && after == self && m1 == m0
        } else if data.len() > request.len || data.len() > u32::MAX {
            r == Err::<Option<Served>, Error>(Error::OutOfRange) && after == self && m1 == m0
        } else if !q.ready {
            r == Err::<Option<Served>, Error>(Error::NotReady) && after == self && m1 == m0
        } else if q.num == 0 {
            r == Err::<Option<Served>, Error>(Error::MalformedDescriptor) && after == self && m1 == m0
        } else if !m0.stored(mem, request.addr as int, data.len() as int) {
            r == Err::<Option<Served>, Error>(Error::OutOfRange) && after == self && m1 == m0
        } else {
            &&& !(r matches Ok(None))
            &&& after.input == self.input
            &&& after.output == self.output
            &&& after.virtio_device.queues@.len() == 2
            &&& after.virtio_device.queues@[1] == self.virtio_device.queues@[1]
            &&& exists|mid: Device| #[trigger]
                self.virtio_device.completes(
                    mid,
                    q,
                    after.virtio_device.queues@[0],
                    m0.poke(mem, request.addr as int, data),
                    m1,
                    IrqVecSender { line: 0 },
                    request.head,
                    data.len() as u32,
                    handled(r),
                ) && after.virtio_device == (Device { queues: after.virtio_device.queues, ..mid })
        }
    }

    /// Installs the input `data`, which the host's text source gave for
    /// `request`; see `installs`.
    pub fn console_read<D: IoAccess>(&mut self, mem: &mut Fabric<D>, request: InputRequest, data: &[u8]) -> (r:
        Result<Option<Served>, Error>)
        requires
            old(self).wf(),
            old(mem).wf(),
        ensures
            final(self).wf(),
            final(mem).wf(),
            old(self).installs(*final(self), old(mem)@, final(mem)@, request, data@, r),
    {
        let ret = data.len();
        if ret == 0 {
            return Ok(None);
        }
        if ret > request.len || ret as u64 > u32::MAX as u64 {
            return Err(Error::OutOfRange);
        }
        let mut queue = self.virtio_device.queues[VIRTIO_CONSOLE_INPUT_QUEUE];
        if !queue.ready {
            return Err(Error::NotReady);
        }
        if queue.num == 0 {
            return Err(Error::MalformedDescriptor);
        }
        if !mem.store_bytes(self.virtio_device.memory, request.addr, data) {
            return Err(Error::OutOfRange);
        }
        let ghost d0 = self.virtio_device;
        let ghost q0 = queue;
        let ghost m0 = mem@;
        let done = self.virtio_device.complete(
            IrqVecSender { line: 0 },
            &mut queue,
            mem,
            request.head,
            ret as u32,
        );
        let ghost mid = self.virtio_device;
        let r = match done {
            Ok(s) => Ok(Some(s)),
            Err(e) => Err(e),
        };
        self.virtio_device.queues[VIRTIO_CONSOLE_INPUT_QUEUE] = queue;
        proof {
            assert(handled(r) == done);
            assert(d0.completes(mid, q0, queue, m0, mem@, IrqVecSender { line: 0 }, request.head, ret as u32, done));
            assert(self.virtio_device == (Device { queues: self.virtio_device.queues, ..mid }));
        }
        r
    }
}

/// The console as the address space sees it.
pub struct VirtIOConsole {
    pub console: VirtIOConsoleDevice,
}

impl VirtIOConsole {
    /// The console device is well formed.
    pub open spec fn wf(&self) -> bool {
        self.console.wf()
    }

    pub fn new(d: VirtIOConsoleDevice) -> (c: VirtIOConsole)
        ensures
            c.console == d,
    {
        VirtIOConsole { console: d }
    }

    /// The register file of the device.
    pub fn device(&self) -> (d: &Device)
        ensures
            *d == self.console.virtio_device,
    {
        &self.console.virtio_device
    }

    /// Reads `data.len()` bytes at `addr` of the device's register file.
    pub fn read_bytes(&self, addr: u64, data: &mut Vec<u8>)
        ensures
            final(data)@ == self.console.virtio_device.register_bytes(addr, old(data)@),
    {
        self.console.virtio_device.read_bytes(addr, data);
    }

    /// Writes `data` at `addr` of the device's register file and says what
    /// the write asks of the device's owner. A notify is carried out by
    /// `notify`.
    pub fn write_bytes(&mut self, addr: u64, data: &[u8]) -> (action: Action)
        requires
            old(self).wf(),
        ensures
            final(self).wf(),
            final(self).console.input == old(self).console.input,
            final(self).console.output == old(self).console.output,
            data@.len() == 4 ==> old(self).console.virtio_device.written(
                final(self).console.virtio_device,
                addr,
                crate::virtio::device::word(data@),
                action,
            ),
            data@.len() != 4 ==> action == Action::Idle && final(self).console.virtio_device
                == old(self).console.virtio_device,
    {
        self.console.virtio_device.write_bytes(addr, data)
    }

    /// Serves the chains that the driver has published in queue `index`:
    /// the input queue's client declines them, the output queue's client
    /// collects what they print; see `Device::notify`.
    pub fn notify<D: IoAccess>(&mut self, mem: &mut Fabric<D>, index: usize) -> (n: Notified)
        requires
            old(self).wf(),
            old(mem).wf(),
        ensures
            final(self).wf(),
            final(mem).wf(),
            final(self).console.virtio_device.queues@.len() == old(self).console.virtio_device.queues@.len(),
            index >= old(self).console.virtio_device.queues@.len() ==> n.served@.len() == 0 && n.error
                == Some(Error::OutOfRange) && final(self).console.virtio_device.queues@
                == old(self).console.virtio_device.queues@,
            index < old(self).console.virtio_device.queues@.len() ==> {
                let q = old(self).console.virtio_device.queues@[index as int];
                &&& final(self).console.virtio_device.queues@
                    == old(self).console.virtio_device.queues@.update(
                    index as int,
                    advanced_by(q, n.served@.len()),
                )
                &&& !q.ready ==> n.served@.len() == 0 && n.error == Some(Error::NotReady)
                &&& q.ready && !q.avail_ok(old(mem)@) ==> n.served@.len() == 0 && n.error == Some(
                    Error::OutOfRange,
                )
                &&& q.ready && q.avail_ok(old(mem)@) ==> {
                    let heads = q.avail_heads(old(mem)@);
                    &&& n.served@.len() <= heads.len()
                    &&& used_ids(n.served@) == heads.subrange(0, n.served@.len() as int)
                    &&& n.error is Some ==> n.served@.len() < heads.len()
                    &&& index != VIRTIO_CONSOLE_OUTPUT_QUEUE ==> final(self).console.output
                        == old(self).console.output && notified(
                        old(self).console.virtio_device,
                        final(self).console.virtio_device,
                        old(self).console.input,
                        final(self).console.input,
                        old(mem)@,
                        final(mem)@,
                        index as int,
                        heads,
                        n.served@,
                        n.error,
                    )
                    &&& index == VIRTIO_CONSOLE_OUTPUT_QUEUE ==> final(self).console.input
                        == old(self).console.input && notified(
                        old(self).console.virtio_device,
                        final(self).console.virtio_device,
                        old(self).console.output,
                        final(self).console.output,
                        old(mem)@,
                        final(mem)@,
                        index as int,
                        heads,
                        n.served@,
                        n.error,
                    )
                }
            },
    {
        if index != VIRTIO_CONSOLE_OUTPUT_QUEUE {
            self.console.virtio_device.notify(&mut self.console.input, mem, index)
        } else {
            self.console.virtio_device.notify(&mut self.console.output, mem, index)
        }
    }
}

} // verus!
