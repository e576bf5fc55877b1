//! The register file of a virtio device behind MMIO.

use crate::access::IoAccess;
use crate::error::Error;
use crate::irq::{IrqVec, IrqVecSender};
use crate::region::{Fabric, FabricModel, Region};
use crate::virtio::queue::{Queue, QueueSetting};
use vstd::prelude::*;

verus! {

/// The bytes `virt`, least significant byte first.
pub const MAGIC_VALUE: u32 = 0x74726976;

/// The version of the register layout.
pub const VERSION: u32 = 2;

pub const REG_MAGIC: u64 = 0x000;

pub const REG_VERSION: u64 = 0x004;

pub const REG_DEVICE_ID: u64 = 0x008;

pub const REG_VENDOR_ID: u64 = 0x00c;

pub const REG_DEVICE_FEATURES: u64 = 0x010;

pub const REG_DEVICE_FEATURES_SEL: u64 = 0x014;

pub const REG_DRIVER_FEATURES: u64 = 0x020;

pub const REG_DRIVER_FEATURES_SEL: u64 = 0x024;

pub const REG_QUEUE_SEL: u64 = 0x030;

pub const REG_QUEUE_NUM_MAX: u64 = 0x034;

pub const REG_QUEUE_NUM: u64 = 0x038;

pub const REG_QUEUE_READY: u64 = 0x044;

pub const REG_QUEUE_NOTIFY: u64 = 0x050;

pub const REG_INTERRUPT_STATUS: u64 = 0x060;

pub const REG_INTERRUPT_ACK: u64 = 0x064;

pub const REG_STATUS: u64 = 0x070;

pub const REG_QUEUE_DESC_LOW: u64 = 0x080;

pub const REG_QUEUE_DESC_HIGH: u64 = 0x084;

pub const REG_QUEUE_AVAIL_LOW: u64 = 0x090;

pub const REG_QUEUE_AVAIL_HIGH: u64 = 0x094;

pub const REG_QUEUE_USED_LOW: u64 = 0x0a0;

pub const REG_QUEUE_USED_HIGH: u64 = 0x0a4;

pub const REG_CONFIG_GENERATION: u64 = 0x0fc;

/// Where the device-specific configuration begins.
pub const REG_CONFIG: u64 = 0x100;

pub const STATUS_ACKNOWLEDGE: u32 = 1;

pub const STATUS_DRIVER: u32 = 3;

pub const STATUS_FEATURES_OK: u32 = 11;

pub const STATUS_DRIVER_OK: u32 = 15;

pub const STATUS_FAILED: u32 = 128;

/// The interrupt status bit for a used ring that has moved.
pub const INT_USED_RING: u32 = 1;

/// What a register write asks of the device's owner.
#[derive(Clone, Copy, Debug, PartialEq, Eq, Structural)]
pub enum Action {
    /// Nothing.
    Idle,
    /// The driver has published heads in the queue of that index.
    Notify(usize),
    /// The driver has reset the device.
    Reset,
}

/// The value with its low half replaced.
pub open spec fn with_low(value: u64, low: u32) -> u64 {
    ((value / 0x1_0000_0000) * 0x1_0000_0000 + low) as u64
}

/// The value with its high half replaced.
pub open spec fn with_high(value: u64, high: u32) -> u64 {
    (high * 0x1_0000_0000 + value % 0x1_0000_0000) as u64
}

/// The half of `value` that the selector `sel` names; zero for a selector
/// other than 0 and 1.
pub open spec fn half(value: u64, sel: u32) -> u32 {
    if sel == 0 {
        (value % 0x1_0000_0000) as u32
    } else if sel == 1 {
        (value / 0x1_0000_0000) as u32
    } else {
        0
    }
}

/// Whether the driver may move the status from `current` to `written`: the
/// status is kept, or it takes the one step from reset to acknowledge, to
/// driver, to features-ok, to driver-ok.
pub open spec fn legal_step(current: u32, written: u32) -> bool {
    ||| written == current
    ||| (current == 0 && written == STATUS_ACKNOWLEDGE)
    ||| (current == STATUS_ACKNOWLEDGE && written == STATUS_DRIVER)
    ||| (current == STATUS_DRIVER && written == STATUS_FEATURES_OK)
    ||| (current == STATUS_FEATURES_OK && written == STATUS_DRIVER_OK)
}

/// The status after the driver writes `written`: zero resets, a legal step
/// is taken, and anything else marks the device failed.
pub open spec fn next_status(current: u32, written: u32) -> u32 {
    if written == 0 {
        0
    } else if legal_step(current, written) {
        written
    } else {
        current | STATUS_FAILED
    }
}

/// The value with its low half replaced.
pub fn set_low(value: u64, low: u32) -> (r: u64)
    ensures
        r == with_low(value, low),
{
    (value / 0x1_0000_0000) * 0x1_0000_0000 + low as u64
}

/// The value with its high half replaced.
pub fn set_high(value: u64, high: u32) -> (r: u64)
    ensures
        r == with_high(value, high),
{
    (high as u64) * 0x1_0000_0000 + value % 0x1_0000_0000
}

/// The half of `value` that the selector `sel` names.
pub fn get_half(value: u64, sel: u32) -> (r: u32)
    ensures
        r == half(value, sel),
{
    if sel == 0 {
        (value % 0x1_0000_0000) as u32
    } else if sel == 1 {
        (value / 0x1_0000_0000) as u32
    } else {
        0
    }
}

/// Whether `offset` is a register of the selected queue.
pub fn is_queue_offset(offset: u64) -> (b: bool)
    ensures
        b == Device::is_queue_register(offset),
{
    offset == REG_QUEUE_NUM || offset == REG_QUEUE_READY || offset == REG_QUEUE_DESC_LOW || offset
        == REG_QUEUE_DESC_HIGH || offset == REG_QUEUE_AVAIL_LOW || offset == REG_QUEUE_AVAIL_HIGH
        || offset == REG_QUEUE_USED_LOW || offset == REG_QUEUE_USED_HIGH
}

/// The number that four bytes spell, least significant byte first; zero for
/// any other count of bytes.
pub open spec fn word(data: Seq<u8>) -> u32 {
    if data.len() == 4 {
        crate::access::le_value(data) as u32
    } else {
        0
    }
}

/// The registers and queues of a virtio device.
pub struct Device {
    pub memory: Region,
    /// The line of the machine's interrupt vector that the device raises.
    pub irq_sender: IrqVecSender,
    /// The device's own lines; line 0 stands for a used ring that has moved.
    pub irq_vec: IrqVec,
    pub vendor_id: u32,
    pub device_id: u32,
    pub device_features: u64,
    pub driver_features: u64,
    pub device_features_sel: u32,
    pub driver_features_sel: u32,
    pub queue_sel: u32,
    pub status: u32,
    pub queues: Vec<Queue>,
    pub config_generation: u32,
    pub irq_status: u32,
}

impl Device {
    /// The device's own interrupt vector has both bits of every line.
    pub open spec fn wf(&self) -> bool {
        self.irq_vec.wf()
    }

    /// The queue that the queue selector names, if there is one.
    pub open spec fn selected(&self) -> Option<Queue> {
        if self.queue_sel < self.queues@.len() {
            Some(self.queues@[self.queue_sel as int])
        } else {
            None
        }
    }

    /// A device in reset without queues, with `num_irqs` lines of its own,
    /// all of them disabled.
    pub fn new(
        memory: Region,
        irq_sender: IrqVecSender,
        num_irqs: usize,
        device_id: u32,
        vendor_id: u32,
        device_features: u64,
    ) -> (d: Device)
        ensures
            d.wf(),
            d.memory == memory,
            d.irq_sender == irq_sender,
            d.irq_vec.enabled() == Seq::new(num_irqs as nat, |i: int| false),
            d.irq_vec.pending() == Seq::new(num_irqs as nat, |i: int| false),
            d.device_id == device_id,
            d.vendor_id == vendor_id,
            d.device_features == device_features,
            d.driver_features == 0,
            d.device_features_sel == 0,
            d.driver_features_sel == 0,
            d.queue_sel == 0,
            d.status == 0,
            d.queues@ == Seq::<Queue>::empty(),
            d.config_generation == 0,
            d.irq_status == 0,
    {
        Device {
            memory,
            irq_sender,
            irq_vec: IrqVec::new(num_irqs),
            vendor_id,
            device_id,
            device_features,
            driver_features: 0,
            device_features_sel: 0,
            driver_features_sel: 0,
            queue_sel: 0,
            status: 0,
            queues: Vec::new(),
            config_generation: 0,
            irq_status: 0,
        }
    }

    /// Adds a queue to the device.
    pub fn add_queue(&mut self, queue: Queue)
        ensures
            final(self).queues@ == old(self).queues@.push(queue),
            *final(self) == (Device { queues: final(self).queues, ..*old(self) }),
    {
        self.queues.push(queue);
    }

    /// The queue of index `i`, if the device has one.
    pub fn get_queue(&self, i: usize) -> (q: Option<Queue>)
        ensures
            i < self.queues@.len() ==> q == Some(self.queues@[i as int]),
            i >= self.queues@.len() ==> q is None,
    {
        if i < self.queues.len() {
            Some(self.queues[i])
        } else {
            None
        }
    }

    /// Replaces the queue of index `i`, if the device has one, and says
    /// whether it did.
    pub fn set_queue(&mut self, i: usize, queue: Queue) -> (done: bool)
        ensures
            done == (i < old(self).queues@.len()),
            done ==> final(self).queues@ == old(self).queues@.update(i as int, queue),
            !done ==> final(self).queues@ == old(self).queues@,
            *final(self) == (Device { queues: final(self).queues, ..*old(self) }),
    {
        if i < self.queues.len() {
            self.queues[i] = queue;
            true
        } else {
            false
        }
    }

    /// What a read of the register at `offset` gives. A register that the
    /// layout does not have, or that is write-only, reads as zero; so does
    /// a queue register while the selector names no queue.
    pub open spec fn register(&self, offset: u64) -> u32 {
        if offset == REG_MAGIC {
            MAGIC_VALUE
        } else if offset == REG_VERSION {
            VERSION
        } else if offset == REG_DEVICE_ID {
            self.device_id
        } else if offset == REG_VENDOR_ID {
            self.vendor_id
        } else if offset == REG_DEVICE_FEATURES {
            half(self.device_features, self.device_features_sel)
        } else if offset == REG_QUEUE_NUM_MAX {
            match self.selected() {
                Some(q) => q.max_queue_size as u32,
                None => 0,
            }
        } else if offset == REG_QUEUE_READY {
            match self.selected() {
                Some(q) => if q.ready {
                    1
                } else {
                    0
                },
                None => 0,
            }
        } else if offset == REG_INTERRUPT_STATUS {
            self.irq_status
        } else if offset == REG_STATUS {
            self.status
        } else if offset == REG_CONFIG_GENERATION {
            self.config_generation
        } else {
            0
        }
    }

    /// Reads the register at `offset`.
    pub fn read_register(&self, offset: u64) -> (v: u32)
        ensures
            v == self.register(offset),
    {
        let selected = self.get_queue(self.queue_sel as usize);
        if offset == REG_MAGIC {
            MAGIC_VALUE
        } else if offset == REG_VERSION {
            VERSION
        } else if offset == REG_DEVICE_ID {
            self.device_id
        } else if offset == REG_VENDOR_ID {
            self.vendor_id
        } else if offset == REG_DEVICE_FEATURES {
            get_half(self.device_features, self.device_features_sel)
        } else if offset == REG_QUEUE_NUM_MAX {
            match selected {
                Some(q) => q.max_queue_size as u32,
                None => 0,
            }
        } else if offset == REG_QUEUE_READY {
            match selected {
                Some(q) => if q.ready {
                    1
                } else {
                    0
                },
                None => 0,
            }
        } else if offset == REG_INTERRUPT_STATUS {
            self.irq_status
        } else if offset == REG_STATUS {
            self.status
        } else if offset == REG_CONFIG_GENERATION {
            self.config_generation
        } else {
            0
        }
    }

    /// The selected queue after `value` is written to the queue register at
    /// `offset`: the size takes the value, cut to the queue's maximum; the
    /// ready bit is set by 1 and cleared by anything else; an address takes
    /// the value as its low or high half.
    pub open spec fn queue_written(q: Queue, offset: u64, value: u32) -> Queue {
        if offset == REG_QUEUE_NUM {
            Queue {
                num: if value > q.max_queue_size {
                    q.max_queue_size
                } else {
                    value as u16
                },
                ..q
            }
        } else if offset == REG_QUEUE_READY {
            Queue { ready: value == 1, ..q }
        } else if offset == REG_QUEUE_DESC_LOW {
            Queue { desc_addr: with_low(q.desc_addr, value), ..q }
        } else if offset == REG_QUEUE_DESC_HIGH {
            Queue { desc_addr: with_high(q.desc_addr, value), ..q }
        } else if offset == REG_QUEUE_AVAIL_LOW {
            Queue { avail_addr: with_low(q.avail_addr, value), ..q }
        } else if offset == REG_QUEUE_AVAIL_HIGH {
            Queue { avail_addr: with_high(q.avail_addr, value), ..q }
        } else if offset == REG_QUEUE_USED_LOW {
            Queue { used_addr: with_low(q.used_addr, value), ..q }
        } else if offset == REG_QUEUE_USED_HIGH {
            Queue { used_addr: with_high(q.used_addr, value), ..q }
        } else {
            q
        }
    }

    /// Whether `offset` is a register of the selected queue.
    pub open spec fn is_queue_register(offset: u64) -> bool {
        ||| offset == REG_QUEUE_NUM
        ||| offset == REG_QUEUE_READY
        ||| offset == REG_QUEUE_DESC_LOW
        ||| offset == REG_QUEUE_DESC_HIGH
        ||| offset == REG_QUEUE_AVAIL_LOW
        ||| offset == REG_QUEUE_AVAIL_HIGH
        ||| offset == REG_QUEUE_USED_LOW
        ||| offset == REG_QUEUE_USED_HIGH
    }

    /// A queue as a reset leaves it: not ready, everything zero but what it
    /// was made with.
    pub open spec fn queue_reset(q: Queue) -> Queue {
        Queue {
            memory: q.memory,
            max_queue_size: q.max_queue_size,
            ready: false,
            num: 0,
            desc_addr: 0,
            avail_addr: 0,
            used_addr: 0,
            last_avail_idx: 0,
        }
    }

    /// Puts every queue back as it was made, and clears the driver's
    /// features, the selectors and the interrupt status.
    pub fn reset(&mut self)
        requires
            old(self).wf(),
        ensures
            final(self).wf(),
            final(self).queues@ == Seq::new(
                old(self).queues@.len(),
                |i: int| Self::queue_reset(old(self).queues@[i]),
            ),
            *final(self) == (Device {
                queues: final(self).queues,
                status: 0,
                driver_features: 0,
                device_features_sel: 0,
                driver_features_sel: 0,
                queue_sel: 0,
                irq_status: 0,
                ..*old(self)
            }),
    {
        self.status = 0;
        self.driver_features = 0;
        self.device_features_sel = 0;
        self.driver_features_sel = 0;
        self.queue_sel = 0;
        self.irq_status = 0;
        let n = self.queues.len();
        let mut i: usize = 0;
        while i < n
            invariant
                i <= n,
                n == self.queues@.len(),
                n == old(self).queues@.len(),
                forall|j: int| 0 <= j < i ==> self.queues@[j] == Self::queue_reset(old(self).queues@[j]),
                forall|j: int| i <= j < n ==> self.queues@[j] == old(self).queues@[j],
                *self == (Device {
                    queues: self.queues,
                    status: 0,
                    driver_features: 0,
                    device_features_sel: 0,
                    driver_features_sel: 0,
                    queue_sel: 0,
                    irq_status: 0,
                    ..*old(self)
                }),
            decreases n - i,
        {
            let q = self.queues[i];
            self.queues[i] = Queue::new(q.memory, QueueSetting { max_queue_size: q.max_queue_size });
            i += 1;
        }
        assert(self.queues@ =~= Seq::new(
            old(self).queues@.len(),
            |i: int| Self::queue_reset(old(self).queues@[i]),
        ));
    }

    /// Whether `after` and `action` are what a write of `value` to the
    /// register at `offset` makes of the device.
    ///
    /// A selector takes the value. The driver's features take it as the half
    /// that their selector names. A queue register changes the selected
    /// queue as `queue_written` says. A notify of a queue that the device has
    /// asks for that queue to be served. An interrupt acknowledge clears the
    /// acknowledged bits of the interrupt status. A status write moves the
    /// status as `next_status` says; a write of zero resets the device.
    /// Anything else changes nothing.
    pub open spec fn written(self, after: Device, offset: u64, value: u32, action: Action) -> bool {
        if offset == REG_DEVICE_FEATURES_SEL {
            action == Action::Idle && after == (Device { device_features_sel: value, ..self })
        } else if offset == REG_DRIVER_FEATURES_SEL {
            action == Action::Idle && after == (Device { driver_features_sel: value, ..self })
        } else if offset == REG_DRIVER_FEATURES {
            action == Action::Idle && after == (Device {
                driver_features: if self.driver_features_sel == 0 {
                    with_low(self.driver_features, value)
                } else if self.driver_features_sel == 1 {
                    with_high(self.driver_features, value)
                } else {
                    self.driver_features
                },
                ..self
            })
        } else if offset == REG_QUEUE_SEL {
            action == Action::Idle && after == (Device { queue_sel: value, ..self })
        } else if Self::is_queue_register(offset) {
            &&& action == Action::Idle
            &&& after == (Device { queues: after.queues, ..self })
            &&& after.queues@ == match self.selected() {
                Some(q) => self.queues@.update(
                    self.queue_sel as int,
                    Self::queue_written(q, offset, value),
                ),
                None => self.queues@,
            }
        } else if offset == REG_QUEUE_NOTIFY {
            after == self && action == if value < self.queues@.len() {
                Action::Notify(value as usize)
            } else {
                Action::Idle
            }
        } else if offset == REG_INTERRUPT_ACK {
            action == Action::Idle && after == (Device { irq_status: self.irq_status & !value, ..self })
        } else if offset == REG_STATUS && value != 0 {
            action == Action::Idle && after == (Device {
                status: next_status(self.status, value),
                ..self
            })
        } else if offset == REG_STATUS {
            &&& action == Action::Reset
            &&& after.queues@ == Seq::new(
                self.queues@.len(),
                |i: int| Self::queue_reset(self.queues@[i]),
            )
            &&& after == (Device {
                queues: after.queues,
                status: 0,
                driver_features: 0,
                device_features_sel: 0,
                driver_features_sel: 0,
                queue_sel: 0,
                irq_status: 0,
                ..self
            })
        } else {
            action == Action::Idle && after == self
        }
    }

    /// Writes `value` to the register at `offset` and says what the write
    /// asks of the device's owner; see `written`.
    pub fn write_register(&mut self, offset: u64, value: u32) -> (action: Action)
        requires
            old(self).wf(),
        ensures
            final(self).wf(),
            old(self).written(*final(self), offset, value, action),
    {
        if offset == REG_DEVICE_FEATURES_SEL {
            self.device_features_sel = value;
        } else if offset == REG_DRIVER_FEATURES_SEL {
            self.driver_features_sel = value;
        } else if offset == REG_DRIVER_FEATURES {
            if self.driver_features_sel == 0 {
                self.driver_features = set_low(self.driver_features, value);
            } else if self.driver_features_sel == 1 {
                self.driver_features = set_high(self.driver_features, value);
            }
        } else if offset == REG_QUEUE_SEL {
            self.queue_sel = value;
        } else if offset == REG_QUEUE_NOTIFY {
            if (value as u64) < self.queues.len() as u64 {
                return Action::Notify(value as usize);
            }
        } else if offset == REG_INTERRUPT_ACK {
            self.irq_status = self.irq_status & !value;
        } else if offset == REG_STATUS {
            if value == 0 {
                self.reset();
                return Action::Reset;
            }
            let cur = self.status;
            let legal = value == cur || (cur == 0 && value == STATUS_ACKNOWLEDGE) || (cur
                == STATUS_ACKNOWLEDGE && value == STATUS_DRIVER) || (cur == STATUS_DRIVER && value
                == STATUS_FEATURES_OK) || (cur == STATUS_FEATURES_OK && value == STATUS_DRIVER_OK);
            self.status = if legal {
                value
            } else {
                cur | STATUS_FAILED
            };
        } else if is_queue_offset(offset) && (self.queue_sel as u64) < self.queues.len() as u64 {
            let i = self.queue_sel as usize;
            let q = self.queues[i];
            let nq = if offset == REG_QUEUE_NUM {
                Queue {
                    num: if value > q.max_queue_size as u32 {
                        q.max_queue_size
                    } else {
                        value as u16
                    },
                    ..q
                }
            } else if offset == REG_QUEUE_READY {
                Queue { ready: value == 1, ..q }
            } else if offset == REG_QUEUE_DESC_LOW {
                Queue { desc_addr: set_low(q.desc_addr, value), ..q }
            } else if offset == REG_QUEUE_DESC_HIGH {
                Queue { desc_addr: set_high(q.desc_addr, value), ..q }
            } else if offset == REG_QUEUE_AVAIL_LOW {
                Queue { avail_addr: set_low(q.avail_addr, value), ..q }
            } else if offset == REG_QUEUE_AVAIL_HIGH {
                Queue { avail_addr: set_high(q.avail_addr, value), ..q }
            } else if offset == REG_QUEUE_USED_LOW {
                Queue { used_addr: set_low(q.used_addr, value), ..q }
            } else if offset == REG_QUEUE_USED_HIGH {
                Queue { used_addr: set_high(q.used_addr, value), ..q }
            } else {
                q
            };
            self.queues[i] = nq;
            assert(self.queues@ =~= old(self).queues@.update(i as int, nq));
        }
        Action::Idle
    }

    /// What a read of `len` bytes at `addr` of the register file gives:
    /// the four bytes of the register for a read of four bytes, and `before`
    /// unchanged for a read of any other length.
    pub open spec fn register_bytes(&self, addr: u64, before: Seq<u8>) -> Seq<u8> {
        if before.len() == 4 {
            crate::access::le_bytes(self.register(addr) as nat, 4)
        } else {
            before
        }
    }

    /// Reads the register at `addr` into `data`; see `register_bytes`.
    pub fn read_bytes(&self, addr: u64, data: &mut Vec<u8>)
        ensures
            final(data)@ == self.register_bytes(addr, old(data)@),
    {
        if data.len() == 4 {
            let bytes = crate::access::encode(self.read_register(addr) as u64, 4);
            proof {
                crate::access::lemma_le_bytes_len(self.register(addr) as nat, 4);
            }
            data[0] = bytes[0];
            data[1] = bytes[1];
            data[2] = bytes[2];
            data[3] = bytes[3];
            assert(data@ =~= bytes@);
        }
    }

    /// Writes the four bytes `data` to the register at `addr` and says what
    /// the write asks of the device's owner; a write of any other length
    /// changes nothing.
    pub fn write_bytes(&mut self, addr: u64, data: &[u8]) -> (action: Action)
        requires
            old(self).wf(),
        ensures
            final(self).wf(),
            data@.len() == 4 ==> old(self).written(*final(self), addr, word(data@), action),
            data@.len() != 4 ==> action == Action::Idle && *final(self) == *old(self),
    {
        if data.len() != 4 {
            return Action::Idle;
        }
        let mut bytes: Vec<u8> = Vec::new();
        bytes.push(data[0]);
        bytes.push(data[1]);
        bytes.push(data[2]);
        bytes.push(data[3]);
        assert(bytes@ =~= data@);
        proof {
            crate::access::lemma_le_value_bound(bytes@);
            crate::access::lemma_pow256_values();
        }
        let value = crate::access::decode(&bytes);
        self.write_register(addr, value as u32)
    }

    /// Whether the line of `sender` exists and is enabled.
    pub open spec fn line_enabled(&self, sender: IrqVecSender) -> bool {
        sender.line < self.irq_vec.lines() && self.irq_vec.enabled()[sender.line as int]
    }

    /// The device after a send on its own line `sender`: the line is
    /// pending and, where it is enabled, the interrupt status has the
    /// used-ring bit.
    pub open spec fn sent(self, after: Device, sender: IrqVecSender) -> bool {
        &&& after.irq_vec.enabled() == self.irq_vec.enabled()
        &&& after.irq_vec.pending() == self.irq_vec.pending().update(sender.line as int, true)
        &&& after == (Device {
            irq_vec: after.irq_vec,
            irq_status: if self.line_enabled(sender) {
                self.irq_status | INT_USED_RING
            } else {
                self.irq_status
            },
            ..self
        })
    }

    /// Raises the device's own line `sender` for a used ring that has
    /// moved. Where the line is enabled, its listener runs: the interrupt
    /// status gets the used-ring bit, and the machine's line is to be raised,
    /// whose sender is the result. Fails with `OutOfRange`, and changes
    /// nothing, when the device has no such line.
    pub fn send(&mut self, sender: IrqVecSender) -> (r: Result<Option<IrqVecSender>, Error>)
        requires
            old(self).wf(),
        ensures
            final(self).wf(),
            sender.line >= old(self).irq_vec.lines() ==> r == Err::<Option<IrqVecSender>, Error>(
                Error::OutOfRange,
            ) && *final(self) == *old(self),
            sender.line < old(self).irq_vec.lines() ==> old(self).sent(*final(self), sender) && r
                == Ok::<Option<IrqVecSender>, Error>(
                if old(self).line_enabled(sender) {
                    Some(old(self).irq_sender)
                } else {
                    None
                },
            ),
    {
        if sender.line >= self.irq_vec.len() {
            return Err(Error::OutOfRange);
        }
        if self.irq_vec.send_uncheck(sender) {
            self.irq_status = self.irq_status | INT_USED_RING;
            Ok(Some(self.irq_sender))
        } else {
            Ok(None)
        }
    }
}

/// What the device did with one descriptor chain.
#[derive(Clone, Copy, Debug, PartialEq, Eq, Structural)]
pub struct Served {
    /// The head of the chain, which the used ring names.
    pub head: u16,
    /// The length that the used ring gives for it.
    pub len: u32,
    /// The machine's line to raise, if the device's own line is enabled.
    pub raise: Option<IrqVecSender>,
}

/// The queue with its cursor into the available ring moved one on.
pub open spec fn advanced(q: Queue) -> Queue {
    Queue { last_avail_idx: ((q.last_avail_idx + 1) % 0x1_0000) as u16, ..q }
}

/// The queue with its cursor into the available ring moved `n` on.
pub open spec fn advanced_by(q: Queue, n: nat) -> Queue
    decreases n,
{
    if n == 0 {
        q
    } else {
        advanced(advanced_by(q, (n - 1) as nat))
    }
}

impl Device {
    /// Whether `r` and the states after are what the completion of the
    /// chain `head` with length `len` makes of the states before: the chain
    /// joins the used ring, the queue's cursor moves one on, and the device's
    /// own line `sender` is raised.
    ///
    /// Nothing changes where the completion fails: with `OutOfRange` where
    /// the device has no such line, else with `NotReady` on a queue that is
    /// not ready, else with `MalformedDescriptor` on a queue of size zero,
    /// else with `OutOfRange` where guest memory does not hold the used
    /// ring.
    pub open spec fn completes<D: IoAccess>(
        self,
        after: Device,
        q0: Queue,
        q1: Queue,
        m0: crate::region::FabricModel<D>,
        m1: crate::region::FabricModel<D>,
        sender: IrqVecSender,
        head: u16,
        len: u32,
        r: Result<Served, Error>,
    ) -> bool {
        if sender.line >= self.irq_vec.lines() {
            r == Err::<Served, Error>(Error::OutOfRange) && m1 == m0 && q1 == q0 && after == self
        } else if !q0.ready {
            r == Err::<Served, Error>(Error::NotReady) && m1 == m0 && q1 == q0 && after == self
        } else if q0.num == 0 {
            r == Err::<Served, Error>(Error::MalformedDescriptor) && m1 == m0 && q1 == q0 && after
                == self
        } else if q0.used_ok(m0) {
            &&& r == Ok::<Served, Error>(
                Served {
                    head,
                    len,
                    raise: if self.line_enabled(sender) {
                        Some(self.irq_sender)
                    } else {
                        None
                    },
                },
            )
            &&& m1 == q0.used_with(m0, head, len)
            &&& q1 == advanced(q0)
            &&& self.sent(after, sender)
        } else {
            &&& r == Err::<Served, Error>(Error::OutOfRange)
            &&& m1 == m0
            &&& q1 == q0
            &&& after == self
        }
    }

    /// Completes the chain `head` with length `len`; see `completes`.
    pub fn complete<D: IoAccess>(
        &mut self,
        sender: IrqVecSender,
        queue: &mut Queue,
        mem: &mut Fabric<D>,
        head: u16,
        len: u32,
    ) -> (r: Result<Served, Error>)
        requires
            old(self).wf(),
            old(mem).wf(),
        ensures
            final(self).wf(),
            final(mem).wf(),
            final(self).queues@ == old(self).queues@,
            old(self).completes(
                *final(self),
                *old(queue),
                *final(queue),
                old(mem)@,
                final(mem)@,
                sender,
                head,
                len,
                r,
            ),
    {
        if sender.line >= self.irq_vec.len() {
            return Err(Error::OutOfRange);
        }
        match queue.set_used(mem, head, len) {
            Err(e) => Err(e),
            Ok(()) => {
                queue.update_last_avail();
                match self.send(sender) {
                    Ok(raise) => Ok(Served { head, len, raise }),
                    Err(e) => Err(e),
                }
            },
        }
    }
}

/// The states that the service of a chain changes, but for the client's
/// own.
pub struct World<D> {
    pub device: Device,
    pub queue: Queue,
    pub mem: FabricModel<D>,
}

/// The part of a device class that serves the chains of a queue.
pub trait QueueClient<D: IoAccess>: Sized {
    /// What the client keeps true of itself between calls.
    spec fn inv(&self) -> bool;

    /// Whether `post`, `w1` and `r` are what the chain at `head` makes of
    /// the client `pre` and of `w0`.
    spec fn serves(
        pre: Self,
        post: Self,
        w0: World<D>,
        w1: World<D>,
        head: u16,
        r: Result<Option<Served>, Error>,
    ) -> bool;

    /// Serves the chain that begins at `desc_head`, or declines it. A chain
    /// that is served is named once in the used ring, and the queue's cursor
    /// moves one on; a chain that is declined or fails leaves the cursor
    /// where it was.
    fn receive(
        &mut self,
        device: &mut Device,
        queue: &mut Queue,
        mem: &mut Fabric<D>,
        desc_head: u16,
    ) -> (r: Result<Option<Served>, Error>)
        requires
            old(self).inv(),
            old(device).wf(),
            old(mem).wf(),
        ensures
            final(self).inv(),
            final(device).wf(),
            final(mem).wf(),
            final(device).queues@ == old(device).queues@,
            final(device).irq_vec.lines() == old(device).irq_vec.lines(),
            r matches Ok(Some(s)) ==> s.head == desc_head && *final(queue) == advanced(*old(queue)),
            !(r matches Ok(Some(_))) ==> *final(queue) == *old(queue),
            Self::serves(
                *old(self),
                *final(self),
                World { device: *old(device), queue: *old(queue), mem: old(mem)@ },
                World { device: *final(device), queue: *final(queue), mem: final(mem)@ },
                desc_head,
                r,
            ),
    ;
}

/// What a client made of a chain, for a client that never declines.
pub open spec fn handled(r: Result<Option<Served>, Error>) -> Result<Served, Error> {
    match r {
        Ok(Some(s)) => Ok(s),
        Ok(None) => Err(Error::NotReady),
        Err(e) => Err(e),
    }
}

/// What a notify of a queue came to.
pub struct Notified {
    /// The chains that were served, in the order of their service.
    pub served: Vec<Served>,
    /// The failure that stopped the service, if one did.
    pub error: Option<Error>,
}

/// Whether the client `c1` and the states `w1` are what the service of
/// every chain of `heads`, in order, makes of the client `c0` and of `w0`,
/// and `served` is what the chains were served with.
pub open spec fn served_all<C: QueueClient<D>, D: IoAccess>(
    c0: C,
    w0: World<D>,
    heads: Seq<u16>,
    c1: C,
    w1: World<D>,
    served: Seq<Served>,
) -> bool
    decreases heads.len(),
{
    if heads.len() == 0 {
        c1 == c0 && w1 == w0 && served.len() == 0
    } else {
        served.len() == heads.len() && exists|c: C, w: World<D>|
            served_all(c0, w0, heads.drop_last(), c, w, served.drop_last()) && #[trigger] C::serves(
                c,
                c1,
                w,
                w1,
                heads.last(),
                Ok(Some(served.last())),
            )
    }
}

/// Whether the service ended in the client `c1` and the states `w1` after
/// the first `k` chains of `heads` had left the client `c` and the states
/// `w`: either those were all the chains, or the client declined or failed
/// the next one, and `error` is its failure.
pub open spec fn stopped<C: QueueClient<D>, D: IoAccess>(
    c: C,
    c1: C,
    w: World<D>,
    w1: World<D>,
    heads: Seq<u16>,
    k: int,
    error: Option<Error>,
) -> bool {
    if k == heads.len() {
        c1 == c && w1 == w && error is None
    } else {
        exists|r: Result<Option<Served>, Error>|
            !(r matches Ok(Some(_))) && #[trigger] C::serves(c, c1, w, w1, heads[k], r) && error == match r {
                Err(e) => Some(e),
                _ => None,
            }
    }
}

/// Whether the queue's chains `heads` were served one after the other,
/// from the client `c0` and the states `w0` on, until all were served or
/// the client declined or failed one; `served` is what the chains were
/// served with, `error` the failure, `c1` the client and `w1` the states at
/// the end.
pub open spec fn runs<C: QueueClient<D>, D: IoAccess>(
    c0: C,
    c1: C,
    w0: World<D>,
    w1: World<D>,
    heads: Seq<u16>,
    served: Seq<Served>,
    error: Option<Error>,
) -> bool {
    &&& served.len() <= heads.len()
    &&& exists|c: C, w: World<D>| #[trigger]
        served_all(c0, w0, heads.subrange(0, served.len() as int), c, w, served) && stopped(
            c,
            c1,
            w,
            w1,
            heads,
            served.len() as int,
            error,
        )
}

/// Whether `after`, `mem` and the client `c1` are what the service of the
/// chains `heads` of queue `index` makes of the device, of guest memory
/// `m0` and of the client `c0`: the chains were served as `runs` says, and
/// the queue took the place of queue `index` at the end.
pub open spec fn notified<C: QueueClient<D>, D: IoAccess>(
    before: Device,
    after: Device,
    c0: C,
    c1: C,
    m0: FabricModel<D>,
    m1: FabricModel<D>,
    index: int,
    heads: Seq<u16>,
    served: Seq<Served>,
    error: Option<Error>,
) -> bool {
    exists|w1: World<D>| #[trigger]
        runs(
            c0,
            c1,
            World { device: before, queue: before.queues@[index], mem: m0 },
            w1,
            heads,
            served,
            error,
        ) && w1.mem == m1 && after == (Device { queues: after.queues, ..w1.device }) && after.queues@
            == w1.device.queues@.update(index, w1.queue)
}

/// The heads that the used ring was given, in order.
pub open spec fn used_ids(served: Seq<Served>) -> Seq<u16> {
    Seq::new(served.len(), |i: int| served[i].head)
}

impl Device {
    /// Serves the chains that the driver has published in queue `index`
    /// since the device's cursor, in published order, one call of the
    /// client for each, and stops at the first chain that the client
    /// declines or fails.
    ///
    /// The heads that the used ring was given are, in order, the first of
    /// the pending heads, and the cursor has moved past exactly those.
    /// Nothing is served, and the error says why, where the device has no
    /// such queue or the pending heads cannot be read.
    pub fn notify<C: QueueClient<D>, D: IoAccess>(&mut self, client: &mut C, mem: &mut Fabric<D>, index: usize) -> (n:
        Notified)
        requires
            old(self).wf(),
            old(client).inv(),
            old(mem).wf(),
        ensures
            final(self).wf(),
            final(client).inv(),
            final(mem).wf(),
            final(self).queues@.len() == old(self).queues@.len(),
            final(self).irq_vec.lines() == old(self).irq_vec.lines(),
            index >= old(self).queues@.len() ==> n.served@.len() == 0 && n.error == Some(
                Error::OutOfRange,
            ) && final(self).queues@ == old(self).queues@,
            index < old(self).queues@.len() ==> {
                let q = old(self).queues@[index as int];
                &&& final(self).queues@ == old(self).queues@.update(
                    index as int,
                    advanced_by(q, n.served@.len()),
                )
                &&& !q.ready ==> n.served@.len() == 0 && n.error == Some(Error::NotReady)
                &&& q.ready && !q.avail_ok(old(mem)@) ==> n.served@.len() == 0 && n.error == Some(
                    Error::OutOfRange,
                )
                &&& q.ready && q.avail_ok(old(mem)@) ==> {
                    let heads = q.avail_heads(old(mem)@);
                    &&& n.served@.len() <= heads.len()
                    &&& used_ids(n.served@) == heads.subrange(0, n.served@.len() as int)
                    &&& n.error is Some ==> n.served@.len() < heads.len()
                    &&& notified(
                        *old(self),
                        *final(self),
                        *old(client),
                        *final(client),
                        old(mem)@,
                        final(mem)@,
                        index as int,
                        heads,
                        n.served@,
                        n.error,
                    )
                }
            },
    {
        let mut served: Vec<Served> = Vec::new();
        if index >= self.queues.len() {
            return Notified { served, error: Some(Error::OutOfRange) };
        }
        let mut queue = self.queues[index];
        let ghost q0 = queue;
        let heads = match queue.avail_iter(mem) {
            Ok(h) => h,
            Err(e) => {
                assert(self.queues@ =~= old(self).queues@.update(index as int, advanced_by(q0, 0)));
                return Notified { served, error: Some(e) };
            },
        };
        let mut error: Option<Error> = None;
        let mut i: usize = 0;
        let ghost c0 = *client;
        let ghost w0 = World { device: *self, queue, mem: mem@ };
        let ghost mut c = *client;
        let ghost mut w = w0;
        assert(used_ids(served@) =~= heads@.subrange(0, 0));
        assert(heads@.subrange(0, 0) =~= Seq::<u16>::empty());
        while i < heads.len()
            invariant_except_break
                error is None,
                c == *client,
                w == (World { device: *self, queue, mem: mem@ }),
            invariant
                self.wf(),
                client.inv(),
                mem.wf(),
                i <= heads@.len(),
                self.queues@ == old(self).queues@,
                self.irq_vec.lines() == old(self).irq_vec.lines(),
                index < self.queues@.len(),
                served@.len() == i,
                queue == advanced_by(q0, i as nat),
                used_ids(served@) == heads@.subrange(0, i as int),
                served_all(c0, w0, heads@.subrange(0, i as int), c, w, served@),
            ensures
                served@.len() <= heads@.len(),
                queue == advanced_by(q0, served@.len()),
                used_ids(served@) == heads@.subrange(0, served@.len() as int),
                error is Some ==> served@.len() < heads@.len(),
                served_all(c0, w0, heads@.subrange(0, served@.len() as int), c, w, served@),
                stopped(
                    c,
                    *client,
                    w,
                    World { device: *self, queue, mem: mem@ },
                    heads@,
                    served@.len() as int,
                    error,
                ),
            decreases heads@.len() - i,
        {
            let ghost before = served@;
            let r = client.receive(self, &mut queue, mem, heads[i]);
            let ghost c1 = *client;
            let ghost w1 = World { device: *self, queue, mem: mem@ };
            assert(C::serves(c, c1, w, w1, heads@[i as int], r));
            match r {
                Ok(Some(s)) => {
                    served.push(s);
                    proof {
                        assert(used_ids(served@) =~= heads@.subrange(0, i + 1));
                        let hs = heads@.subrange(0, i + 1);
                        assert(hs.drop_last() =~= heads@.subrange(0, i as int));
                        assert(served@.drop_last() =~= before);
                        assert(C::serves(c, c1, w, w1, hs.last(), Ok(Some(served@.last()))));
                        assert(served_all(c0, w0, hs, c1, w1, served@));
                        c = c1;
                        w = w1;
                    }
                },
                Ok(None) => {
                    assert(stopped(c, c1, w, w1, heads@, served@.len() as int, error));
                    break ;
                },
                Err(e) => {
                    error = Some(e);
                    assert(stopped(c, c1, w, w1, heads@, served@.len() as int, error));
                    break ;
                },
            }
            i += 1;
        }
        let ghost w1 = World { device: *self, queue, mem: mem@ };
        self.queues[index] = queue;
        proof {
            assert(self.queues@ =~= old(self).queues@.update(index as int, queue));
            assert(runs(c0, *client, w0, w1, heads@, served@, error));
            assert(*self == (Device { queues: self.queues, ..w1.device }));
            assert(notified(
                *old(self),
                *self,
                c0,
                *client,
                old(mem)@,
                mem@,
                index as int,
                heads@,
                served@,
                error,
            ));
        }
        Notified { served, error }
    }
}

} // verus!
