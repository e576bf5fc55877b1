use terminus_spaceport::access::{IoAccess, NullDevice};
use terminus_spaceport::devices::armory::virtio_blk::{
    VirtIOBlk, VirtIOBlkConfig, VirtIOBlkDiskSnapshot, VirtIOBlkHeader,
};
use terminus_spaceport::devices::armory::virtio_console::{
    InputRequest, VirtIOConsole, VirtIOConsoleDevice,
};
use terminus_spaceport::error::Error;
use terminus_spaceport::irq::IrqVecSender;
use terminus_spaceport::region::{Fabric, Region};
use terminus_spaceport::virtio::device::{
    Action, Device, Served, MAGIC_VALUE, REG_DEVICE_FEATURES, REG_DEVICE_FEATURES_SEL, REG_DEVICE_ID,
    REG_DRIVER_FEATURES, REG_DRIVER_FEATURES_SEL, REG_INTERRUPT_ACK, REG_INTERRUPT_STATUS, REG_MAGIC,
    REG_QUEUE_AVAIL_HIGH, REG_QUEUE_AVAIL_LOW, REG_QUEUE_DESC_HIGH, REG_QUEUE_DESC_LOW,
    REG_QUEUE_NOTIFY, REG_QUEUE_NUM, REG_QUEUE_NUM_MAX, REG_QUEUE_READY, REG_QUEUE_SEL,
    REG_QUEUE_USED_HIGH, REG_QUEUE_USED_LOW, REG_STATUS, REG_VENDOR_ID, REG_VERSION,
};
use terminus_spaceport::virtio::queue::{
    DescMeta, Descriptor, Queue, QueueSetting, VIRTQ_DESC_F_INDIRECT, VIRTQ_DESC_F_NEXT,
    VIRTQ_DESC_F_WRITE,
};

const DESC: u64 = 0x1000;
const AVAIL: u64 = 0x2000;
const USED: u64 = 0x3000;
const OUTER: IrqVecSender = IrqVecSender { line: 5 };

fn guest() -> (Fabric<NullDevice>, Region) {
    let mut fabric: Fabric<NullDevice> = Fabric::new();
    let heap = fabric.new_heap(0, 0x20000).unwrap();
    let mem = fabric.allocate(heap, 0x10000, 1).unwrap();
    (fabric, mem)
}

fn put_desc(f: &mut Fabric<NullDevice>, mem: Region, table: u64, i: u64, d: Descriptor) {
    f.write_u64(mem, table + 16 * i, d.addr).unwrap();
    f.write_u32(mem, table + 16 * i + 8, d.len).unwrap();
    f.write_u16(mem, table + 16 * i + 12, d.flags).unwrap();
    f.write_u16(mem, table + 16 * i + 14, d.next).unwrap();
}

fn publish(f: &mut Fabric<NullDevice>, mem: Region, heads: &[u16], num: u16, from: u16) {
    for (j, h) in heads.iter().enumerate() {
        let slot = (from as u64 + j as u64) % num as u64;
        f.write_u16(mem, AVAIL + 4 + 2 * slot, *h).unwrap();
    }
    f.write_u16(mem, AVAIL + 2, from.wrapping_add(heads.len() as u16)).unwrap();
}

fn ready_queue(mem: Region, num: u16) -> Queue {
    Queue {
        memory: mem,
        max_queue_size: 16,
        ready: true,
        num,
        desc_addr: DESC,
        avail_addr: AVAIL,
        used_addr: USED,
        last_avail_idx: 0,
    }
}

fn used_entry(f: &mut Fabric<NullDevice>, mem: Region, slot: u64) -> (u32, u32) {
    (
        f.read_u32(mem, USED + 4 + 8 * slot).unwrap(),
        f.read_u32(mem, USED + 8 + 8 * slot).unwrap(),
    )
}

fn bytes_at(f: &Fabric<NullDevice>, mem: Region, addr: u64, len: usize) -> Vec<u8> {
    f.load_bytes(mem, addr, len).unwrap()
}

#[test]
fn a_new_queue_is_not_ready() {
    let (f, mem) = guest();
    let mut q = Queue::new(mem, QueueSetting { max_queue_size: 16 });
    assert!(!q.get_ready());
    assert_eq!(q.num, 0);
    assert_eq!(q.get_desc(&f, 0), Err(Error::NotReady));
    assert_eq!(q.avail_iter(&f), Err(Error::NotReady));
    assert!(matches!(q.extract(&f, 0, true, true), Err(Error::NotReady)));
    q.set_ready(true);
    assert!(q.get_ready());
    assert_eq!(q.get_desc(&f, 0), Err(Error::MalformedDescriptor));
    assert_eq!(q.avail_iter(&f), Ok(vec![]));
}

#[test]
fn get_desc_is_bounds_checked() {
    let (mut f, mem) = guest();
    let d = Descriptor { addr: 0x1122_3344_5566_7788, len: 0x99aa_bbcc, flags: 3, next: 0x0102 };
    put_desc(&mut f, mem, DESC, 2, d);
    let q = ready_queue(mem, 4);
    assert_eq!(q.get_desc(&f, 2), Ok(d));
    assert_eq!(
        bytes_at(&f, mem, DESC + 32, 16),
        vec![0x88, 0x77, 0x66, 0x55, 0x44, 0x33, 0x22, 0x11, 0xcc, 0xbb, 0xaa, 0x99, 3, 0, 2, 1]
    );
    assert_eq!(q.get_desc(&f, 4), Err(Error::MalformedDescriptor));
    let outside = Queue { desc_addr: 0xfff8, ..q };
    assert_eq!(outside.get_desc(&f, 0), Err(Error::OutOfRange));
    let far = Queue { desc_addr: u64::MAX - 7, ..q };
    assert_eq!(far.get_desc(&f, 1), Err(Error::OutOfRange));
}

#[test]
fn extract_sorts_buffers_by_side_in_chain_order() {
    let (mut f, mem) = guest();
    put_desc(&mut f, mem, DESC, 0, Descriptor { addr: 0x4000, len: 4, flags: VIRTQ_DESC_F_NEXT, next: 3 });
    put_desc(
        &mut f,
        mem,
        DESC,
        3,
        Descriptor { addr: 0x5000, len: 2, flags: VIRTQ_DESC_F_NEXT | VIRTQ_DESC_F_WRITE, next: 1 },
    );
    put_desc(&mut f, mem, DESC, 1, Descriptor { addr: 0x4100, len: 3, flags: VIRTQ_DESC_F_NEXT, next: 2 });
    put_desc(&mut f, mem, DESC, 2, Descriptor { addr: 0x5100, len: 1, flags: VIRTQ_DESC_F_WRITE, next: 0 });
    f.bytes_write(mem, 0x4000, &[1, 2, 3, 4]).unwrap();
    f.bytes_write(mem, 0x4100, &[5, 6, 7]).unwrap();
    f.bytes_write(mem, 0x5000, &[8, 9]).unwrap();
    f.bytes_write(mem, 0x5100, &[10]).unwrap();
    let q = ready_queue(mem, 4);
    let x = q.extract(&f, 0, true, true).unwrap();
    assert_eq!(x.write_len, 7);
    assert_eq!(x.read_len, 3);
    assert_eq!(x.write_buf, vec![1, 2, 3, 4, 5, 6, 7]);
    assert_eq!(x.read_buf, vec![8, 9, 10]);
    assert_eq!(x.write_descs, vec![DescMeta { addr: 0x4000, len: 4 }, DescMeta { addr: 0x4100, len: 3 }]);
    assert_eq!(x.read_descs, vec![DescMeta { addr: 0x5000, len: 2 }, DescMeta { addr: 0x5100, len: 1 }]);
    let y = q.extract(&f, 0, false, true).unwrap();
    assert_eq!(y.read_len, 3);
    assert!(y.read_buf.is_empty());
    assert_eq!(y.write_buf, vec![1, 2, 3, 4, 5, 6, 7]);
    assert_eq!(y.read_descs, x.read_descs);
    assert_eq!(q.chain_of(&f, 0).unwrap().len(), 4);
}

#[test]
fn chains_longer_than_the_queue_are_malformed() {
    let (mut f, mem) = guest();
    put_desc(&mut f, mem, DESC, 0, Descriptor { addr: 0x4000, len: 4, flags: VIRTQ_DESC_F_NEXT, next: 1 });
    put_desc(&mut f, mem, DESC, 1, Descriptor { addr: 0x4000, len: 4, flags: VIRTQ_DESC_F_NEXT, next: 0 });
    let q = ready_queue(mem, 2);
    assert!(matches!(q.extract(&f, 0, true, true), Err(Error::MalformedDescriptor)));
    // a link that leaves the table
    put_desc(&mut f, mem, DESC, 1, Descriptor { addr: 0x4000, len: 4, flags: VIRTQ_DESC_F_NEXT, next: 2 });
    assert!(matches!(q.extract(&f, 0, true, true), Err(Error::MalformedDescriptor)));
    // a chain of two fits
    put_desc(&mut f, mem, DESC, 1, Descriptor { addr: 0x4000, len: 4, flags: 0, next: 0 });
    assert_eq!(q.extract(&f, 0, true, true).unwrap().write_len, 8);
    // a buffer outside guest memory
    put_desc(&mut f, mem, DESC, 1, Descriptor { addr: 0xfffe, len: 4, flags: 0, next: 0 });
    assert!(matches!(q.extract(&f, 0, true, true), Err(Error::OutOfRange)));
    assert!(matches!(q.extract(&f, 5, true, true), Err(Error::MalformedDescriptor)));
}

#[test]
fn an_indirect_chain_gathers_what_the_direct_chain_gathers() {
    let (mut f, mem) = guest();
    let a = Descriptor { addr: 0x4000, len: 16, flags: VIRTQ_DESC_F_NEXT, next: 1 };
    let b = Descriptor { addr: 0x5000, len: 8, flags: VIRTQ_DESC_F_NEXT | VIRTQ_DESC_F_WRITE, next: 2 };
    let c = Descriptor { addr: 0x6000, len: 1, flags: VIRTQ_DESC_F_WRITE, next: 0 };
    // direct: table entries 0, 1, 2
    put_desc(&mut f, mem, DESC, 0, a);
    put_desc(&mut f, mem, DESC, 1, b);
    put_desc(&mut f, mem, DESC, 2, c);
    // indirect: table entry 3 holds a table of the same three
    put_desc(&mut f, mem, 0x7000, 0, a);
    put_desc(&mut f, mem, 0x7000, 1, b);
    put_desc(&mut f, mem, 0x7000, 2, c);
    put_desc(&mut f, mem, DESC, 3, Descriptor { addr: 0x7000, len: 48, flags: VIRTQ_DESC_F_INDIRECT, next: 0 });
    f.bytes_write(mem, 0x4000, &[7u8; 16]).unwrap();
    f.bytes_write(mem, 0x5000, &[9u8; 8]).unwrap();
    let q = ready_queue(mem, 4);
    let direct = q.extract(&f, 0, true, true).unwrap();
    let indirect = q.extract(&f, 3, true, true).unwrap();
    assert_eq!(q.chain_of(&f, 0), q.chain_of(&f, 3));
    assert_eq!(q.chain_of(&f, 3).unwrap(), vec![a, b, c]);
    assert_eq!(direct.read_descs, indirect.read_descs);
    assert_eq!(direct.write_descs, indirect.write_descs);
    assert_eq!(direct.read_buf, indirect.read_buf);
    assert_eq!(direct.write_buf, indirect.write_buf);
    assert_eq!((direct.read_len, direct.write_len), (indirect.read_len, indirect.write_len));
    assert_eq!((direct.read_len, direct.write_len), (9, 16));
}

#[test]
fn indirect_tables_do_not_nest() {
    let (mut f, mem) = guest();
    put_desc(&mut f, mem, 0x7000, 0, Descriptor { addr: 0x7100, len: 16, flags: VIRTQ_DESC_F_INDIRECT, next: 0 });
    put_desc(&mut f, mem, DESC, 0, Descriptor { addr: 0x7000, len: 16, flags: VIRTQ_DESC_F_INDIRECT, next: 0 });
    let q = ready_queue(mem, 4);
    assert!(matches!(q.chain_of(&f, 0), Err(Error::MalformedDescriptor)));
    // a table whose length is no multiple of sixteen
    put_desc(&mut f, mem, DESC, 0, Descriptor { addr: 0x7000, len: 17, flags: VIRTQ_DESC_F_INDIRECT, next: 0 });
    assert!(matches!(q.chain_of(&f, 0), Err(Error::MalformedDescriptor)));
    // a table outside guest memory
    put_desc(&mut f, mem, DESC, 0, Descriptor { addr: 0xfff8, len: 16, flags: VIRTQ_DESC_F_INDIRECT, next: 0 });
    assert!(matches!(q.chain_of(&f, 0), Err(Error::OutOfRange)));
    // a table longer than the queue
    put_desc(&mut f, mem, DESC, 0, Descriptor { addr: 0x7200, len: 80, flags: VIRTQ_DESC_F_INDIRECT, next: 0 });
    assert!(matches!(q.chain_of(&f, 0), Err(Error::MalformedDescriptor)));
}

#[test]
fn copy_to_scatters_in_order_and_stops_with_the_data() {
    let (mut f, mem) = guest();
    let q = ready_queue(mem, 4);
    let descs = vec![
        DescMeta { addr: 0x4000, len: 3 },
        DescMeta { addr: 0x5000, len: 0 },
        DescMeta { addr: 0x6000, len: 4 },
        DescMeta { addr: 0x7000, len: 4 },
    ];
    f.bytes_write(mem, 0x6000, &[0xff; 4]).unwrap();
    assert_eq!(q.copy_to(&mut f, &descs, &vec![1, 2, 3, 4, 5]), Ok(5));
    assert_eq!(bytes_at(&f, mem, 0x4000, 4), vec![1, 2, 3, 0]);
    assert_eq!(bytes_at(&f, mem, 0x6000, 4), vec![4, 5, 0xff, 0xff]);
    assert_eq!(bytes_at(&f, mem, 0x7000, 4), vec![0, 0, 0, 0]);
    // more data than room
    assert_eq!(q.copy_to(&mut f, &descs, &vec![9; 20]), Ok(11));
    assert_eq!(bytes_at(&f, mem, 0x7000, 5), vec![9, 9, 9, 9, 0]);
    // nothing is written when one range is outside
    let bad = vec![DescMeta { addr: 0x4000, len: 2 }, DescMeta { addr: 0xffff, len: 2 }];
    assert_eq!(q.copy_to(&mut f, &bad, &vec![7, 7, 7, 7]), Err(Error::OutOfRange));
    assert_eq!(bytes_at(&f, mem, 0x4000, 2), vec![9, 9]);
    // the last byte of guest memory can be written
    assert_eq!(q.copy_to(&mut f, &bad, &vec![7, 7, 8]), Ok(3));
    assert_eq!(bytes_at(&f, mem, 0x4000, 2), vec![7, 7]);
    assert_eq!(bytes_at(&f, mem, 0xffff, 1), vec![8]);
}

#[test]
fn set_used_writes_the_entry_then_the_index() {
    let (mut f, mem) = guest();
    let q = ready_queue(mem, 4);
    assert_eq!(q.set_used(&mut f, 3, 0x1234), Ok(()));
    assert_eq!(f.read_u16(mem, USED + 2), Ok(1));
    assert_eq!(used_entry(&mut f, mem, 0), (3, 0x1234));
    assert_eq!(q.set_used(&mut f, 1, 7), Ok(()));
    assert_eq!(f.read_u16(mem, USED + 2), Ok(2));
    assert_eq!(used_entry(&mut f, mem, 1), (1, 7));
    // the ring wraps at the queue size, the index at sixteen bits
    f.write_u16(mem, USED + 2, 0xffff).unwrap();
    assert_eq!(q.set_used(&mut f, 2, 9), Ok(()));
    assert_eq!(f.read_u16(mem, USED + 2), Ok(0));
    assert_eq!(used_entry(&mut f, mem, 3), (2, 9));
    let unready = Queue { ready: false, ..q };
    assert_eq!(unready.set_used(&mut f, 0, 0), Err(Error::NotReady));
    let empty = Queue { num: 0, ..q };
    assert_eq!(empty.set_used(&mut f, 0, 0), Err(Error::MalformedDescriptor));
    let outside = Queue { used_addr: 0xfffa, ..q };
    assert_eq!(outside.set_used(&mut f, 0, 0), Err(Error::OutOfRange));
    assert_eq!(f.read_u16(mem, USED + 2), Ok(0));
}

#[test]
fn avail_iter_yields_what_was_published_since_the_cursor() {
    let (mut f, mem) = guest();
    let mut q = ready_queue(mem, 4);
    assert_eq!(q.avail_iter(&f), Ok(vec![]));
    publish(&mut f, mem, &[2, 0, 3], 4, 0);
    assert_eq!(q.avail_iter(&f), Ok(vec![2, 0, 3]));
    q.update_last_avail();
    assert_eq!(q.last_avail_idx, 1);
    assert_eq!(q.avail_iter(&f), Ok(vec![0, 3]));
    q.update_last_avail();
    q.update_last_avail();
    assert_eq!(q.avail_iter(&f), Ok(vec![]));
    publish(&mut f, mem, &[1, 2], 4, 3);
    assert_eq!(q.avail_iter(&f), Ok(vec![1, 2]));
    // the cursor wraps at sixteen bits
    let mut w = Queue { last_avail_idx: 0xffff, ..q };
    f.write_u16(mem, AVAIL + 2, 1).unwrap();
    f.write_u16(mem, AVAIL + 4 + 6, 9).unwrap();
    f.write_u16(mem, AVAIL + 4, 8).unwrap();
    assert_eq!(w.avail_iter(&f), Ok(vec![9, 8]));
    w.update_last_avail();
    assert_eq!(w.last_avail_idx, 0);
    // never more heads than the queue has entries
    f.write_u16(mem, AVAIL + 2, 0x100).unwrap();
    assert_eq!(w.avail_iter(&f).unwrap().len(), 4);
    let outside = Queue { avail_addr: 0xffff, ..q };
    assert_eq!(outside.avail_iter(&f), Err(Error::OutOfRange));
}

#[test]
fn registers_follow_the_layout() {
    let (_f, mem) = guest();
    let mut d = Device::new(mem, OUTER, 1, 2, 0x554d4551, 0x1_0000_0003);
    d.add_queue(Queue::new(mem, QueueSetting { max_queue_size: 16 }));
    assert_eq!(d.read_register(REG_MAGIC), 0x74726976);
    assert_eq!(MAGIC_VALUE, 0x74726976);
    assert_eq!(d.read_register(REG_VERSION), 2);
    assert_eq!(d.read_register(REG_DEVICE_ID), 2);
    assert_eq!(d.read_register(REG_VENDOR_ID), 0x554d4551);
    assert_eq!(d.read_register(REG_DEVICE_FEATURES), 3);
    assert_eq!(d.write_register(REG_DEVICE_FEATURES_SEL, 1), Action::Idle);
    assert_eq!(d.read_register(REG_DEVICE_FEATURES), 1);
    d.write_register(REG_DEVICE_FEATURES_SEL, 2);
    assert_eq!(d.read_register(REG_DEVICE_FEATURES), 0);
    d.write_register(REG_DRIVER_FEATURES, 0xaaaa_5555);
    d.write_register(REG_DRIVER_FEATURES_SEL, 1);
    d.write_register(REG_DRIVER_FEATURES, 0x1);
    assert_eq!(d.driver_features, 0x1_aaaa_5555);
    assert_eq!(d.read_register(REG_QUEUE_NUM_MAX), 16);
    d.write_register(REG_QUEUE_NUM, 8);
    d.write_register(REG_QUEUE_DESC_LOW, 0x1000);
    d.write_register(REG_QUEUE_DESC_HIGH, 0x1);
    d.write_register(REG_QUEUE_AVAIL_LOW, 0x2000);
    d.write_register(REG_QUEUE_AVAIL_HIGH, 0);
    d.write_register(REG_QUEUE_USED_HIGH, 0x2);
    d.write_register(REG_QUEUE_USED_LOW, 0x3000);
    assert_eq!(d.read_register(REG_QUEUE_READY), 0);
    d.write_register(REG_QUEUE_READY, 1);
    assert_eq!(d.read_register(REG_QUEUE_READY), 1);
    let q = d.get_queue(0).unwrap();
    assert_eq!(q.num, 8);
    assert_eq!(q.desc_addr, 0x1_0000_1000);
    assert_eq!(q.avail_addr, 0x2000);
    assert_eq!(q.used_addr, 0x2_0000_3000);
    assert!(q.ready);
    d.write_register(REG_QUEUE_NUM, 17);
    assert_eq!(d.get_queue(0).unwrap().num, 16);
    assert_eq!(d.write_register(REG_QUEUE_NOTIFY, 0), Action::Notify(0));
    assert_eq!(d.write_register(REG_QUEUE_NOTIFY, 1), Action::Idle);
    d.write_register(REG_QUEUE_SEL, 3);
    assert_eq!(d.read_register(REG_QUEUE_NUM_MAX), 0);
    d.write_register(REG_QUEUE_NUM, 4);
    assert_eq!(d.get_queue(0).unwrap().num, 16);
    assert_eq!(d.read_register(0x0f0), 0);
    assert_eq!(d.write_register(0x0f0, 7), Action::Idle);
    assert!(d.get_queue(1).is_none());
    assert!(!d.set_queue(1, q));
    assert!(d.set_queue(0, Queue { num: 2, ..q }));
    assert_eq!(d.get_queue(0).unwrap().num, 2);
}

#[test]
fn status_moves_step_by_step() {
    let (_f, mem) = guest();
    let mut d = Device::new(mem, OUTER, 1, 2, 0, 0);
    d.add_queue(Queue::new(mem, QueueSetting { max_queue_size: 16 }));
    for s in [1u32, 3, 11, 15] {
        assert_eq!(d.write_register(REG_STATUS, s), Action::Idle);
        assert_eq!(d.read_register(REG_STATUS), s);
    }
    assert_eq!(d.write_register(REG_STATUS, 15), Action::Idle);
    assert_eq!(d.read_register(REG_STATUS), 15);
    // a step back is illegal
    d.write_register(REG_STATUS, 3);
    assert_eq!(d.read_register(REG_STATUS), 15 | 128);
    // a reset puts everything back
    d.write_register(REG_QUEUE_NUM, 8);
    d.write_register(REG_QUEUE_READY, 1);
    assert_eq!(d.write_register(REG_STATUS, 0), Action::Reset);
    assert_eq!(d.read_register(REG_STATUS), 0);
    assert_eq!(d.get_queue(0).unwrap(), Queue::new(mem, QueueSetting { max_queue_size: 16 }));
    // a skipped step is illegal
    d.write_register(REG_STATUS, 3);
    assert_eq!(d.read_register(REG_STATUS), 128);
    d.write_register(REG_STATUS, 1);
    assert_eq!(d.read_register(REG_STATUS), 128);
}

#[test]
fn the_device_line_sets_the_interrupt_status_when_enabled() {
    let (_f, mem) = guest();
    let mut d = Device::new(mem, OUTER, 1, 2, 0, 0);
    assert_eq!(d.send(IrqVecSender { line: 0 }), Ok(None));
    assert_eq!(d.read_register(REG_INTERRUPT_STATUS), 0);
    assert_eq!(d.irq_vec.pending_at(0), Ok(true));
    d.irq_vec.set_enable_uncheck(0, true);
    assert_eq!(d.send(IrqVecSender { line: 0 }), Ok(Some(OUTER)));
    assert_eq!(d.read_register(REG_INTERRUPT_STATUS), 1);
    d.write_register(REG_INTERRUPT_ACK, 1);
    assert_eq!(d.read_register(REG_INTERRUPT_STATUS), 0);
    assert_eq!(d.send(IrqVecSender { line: 1 }), Err(Error::OutOfRange));
    let mut word = vec![0u8; 4];
    d.read_bytes(REG_MAGIC, &mut word);
    assert_eq!(word, vec![0x76, 0x69, 0x72, 0x74]);
    let mut two = vec![5u8; 2];
    d.read_bytes(REG_MAGIC, &mut two);
    assert_eq!(two, vec![5, 5]);
    assert_eq!(d.write_bytes(REG_QUEUE_SEL, &[1, 0]), Action::Idle);
    assert_eq!(d.queue_sel, 0);
    assert_eq!(d.write_bytes(REG_QUEUE_SEL, &[1, 2, 0, 0]), Action::Idle);
    assert_eq!(d.queue_sel, 0x201);
}

fn header(ty: u32, sector: u64) -> Vec<u8> {
    let mut h = Vec::new();
    h.extend_from_slice(&ty.to_le_bytes());
    h.extend_from_slice(&0u32.to_le_bytes());
    h.extend_from_slice(&sector.to_le_bytes());
    h
}

fn block(image: Vec<u8>) -> (Fabric<NullDevice>, Region, VirtIOBlk<VirtIOBlkDiskSnapshot>) {
    let (f, mem) = guest();
    let len = image.len() as u64;
    let mut blk = VirtIOBlk::new(mem, OUTER, 1, VirtIOBlkDiskSnapshot::new(image), len);
    blk.virtio_device.set_queue(0, ready_queue(mem, 16));
    (f, mem, blk)
}

fn request(f: &mut Fabric<NullDevice>, mem: Region, ty: u32, sector: u64, data_flags: u16, len: u32) {
    f.bytes_write(mem, 0x4000, &header(ty, sector)).unwrap();
    put_desc(f, mem, DESC, 0, Descriptor { addr: 0x4000, len: 16, flags: VIRTQ_DESC_F_NEXT, next: 1 });
    put_desc(f, mem, DESC, 1, Descriptor { addr: 0x5000, len, flags: data_flags | VIRTQ_DESC_F_NEXT, next: 2 });
    put_desc(f, mem, DESC, 2, Descriptor { addr: 0x6000, len: 1, flags: VIRTQ_DESC_F_WRITE, next: 0 });
    f.write_u8(mem, 0x6000, 0xee).unwrap();
}

#[test]
fn block_in_fills_the_buffer_and_the_status() {
    let mut image = vec![0xabu8; 512];
    image.extend_from_slice(&[0x11u8; 512]);
    let (mut f, mem, mut blk) = block(image);
    assert_eq!(blk.num_sectors, 2);
    request(&mut f, mem, 0, 0, VIRTQ_DESC_F_WRITE, 512);
    publish(&mut f, mem, &[0], 16, 0);
    let n = blk.notify(&mut f, 0);
    assert_eq!(n.error, None);
    assert_eq!(n.served, vec![Served { head: 0, len: 513, raise: Some(OUTER) }]);
    assert_eq!(bytes_at(&f, mem, 0x5000, 512), vec![0xab; 512]);
    assert_eq!(f.read_u8(mem, 0x6000), Ok(0x00));
    assert_eq!(f.read_u16(mem, USED + 2), Ok(1));
    assert_eq!(used_entry(&mut f, mem, 0), (0, 513));
    assert_eq!(blk.virtio_device.get_queue(0).unwrap().last_avail_idx, 1);
    assert_eq!(blk.device().read_register(REG_INTERRUPT_STATUS), 1);
    // nothing is pending any more
    let again = blk.notify(&mut f, 0);
    assert!(again.served.is_empty());
    assert_eq!(again.error, None);
}

#[test]
fn block_in_after_out_returns_what_was_written() {
    let (mut f, mem, mut blk) = block(vec![0u8; 2048]);
    let pattern: Vec<u8> = (0..512u32).map(|i| (i * 7 + 3) as u8).collect();
    request(&mut f, mem, 1, 1, 0, 512);
    f.bytes_write(mem, 0x5000, &pattern).unwrap();
    publish(&mut f, mem, &[0], 16, 0);
    let n = blk.notify(&mut f, 0);
    assert_eq!(n.error, None);
    assert_eq!(n.served, vec![Served { head: 0, len: 1, raise: Some(OUTER) }]);
    // the status of a write goes to the address of the first buffer that the device reads
    assert_eq!(bytes_at(&f, mem, 0x4000, 16), {
        let mut h = header(1, 1);
        h[0] = 0x00;
        h
    });
    assert_eq!(f.read_u8(mem, 0x6000), Ok(0xee));
    assert_eq!(used_entry(&mut f, mem, 0), (0, 1));
    assert_eq!(&blk.client.disk.data()[512..1024], &pattern[..]);
    assert_eq!(&blk.client.disk.data()[..512], &[0u8; 512][..]);
    // read it back
    f.bytes_write(mem, 0x5000, &[0u8; 512]).unwrap();
    request(&mut f, mem, 0, 1, VIRTQ_DESC_F_WRITE, 512);
    publish(&mut f, mem, &[0], 16, 1);
    let n = blk.notify(&mut f, 0);
    assert_eq!(n.error, None);
    assert_eq!(n.served, vec![Served { head: 0, len: 513, raise: Some(OUTER) }]);
    assert_eq!(bytes_at(&f, mem, 0x5000, 512), pattern);
    assert_eq!(f.read_u8(mem, 0x6000), Ok(0x00));
    assert_eq!(f.read_u16(mem, USED + 2), Ok(2));
    assert_eq!(used_entry(&mut f, mem, 1), (0, 513));
}

#[test]
fn block_requests_past_the_image_get_ioerr() {
    let (mut f, mem, mut blk) = block(vec![0x5au8; 1024]);
    request(&mut f, mem, 0, 2, VIRTQ_DESC_F_WRITE, 512);
    publish(&mut f, mem, &[0], 16, 0);
    let n = blk.notify(&mut f, 0);
    assert_eq!(n.error, None);
    assert_eq!(n.served.len(), 1);
    assert_eq!(f.read_u8(mem, 0x6000), Ok(0x01));
    assert_eq!(used_entry(&mut f, mem, 0), (0, 513));
    request(&mut f, mem, 1, 2, 0, 512);
    publish(&mut f, mem, &[0], 16, 1);
    f.write_u8(mem, 0x4000, 0x81).unwrap();
    let n = blk.notify(&mut f, 0);
    assert_eq!(n.error, Some(Error::ClientError("invalid block ty 0x81!".to_string())));
    f.write_u8(mem, 0x4000, 0x01).unwrap();
    f.write_u8(mem, 0x6000, 0xee).unwrap();
    let n = blk.notify(&mut f, 0);
    assert_eq!(n.served, vec![Served { head: 0, len: 1, raise: Some(OUTER) }]);
    assert_eq!(f.read_u8(mem, 0x4000), Ok(0x01));
    assert_eq!(f.read_u8(mem, 0x6000), Ok(0xee));
    assert_eq!(blk.client.disk.data(), &vec![0x5au8; 1024]);
}

#[test]
fn block_request_of_unknown_type_is_a_client_error() {
    let (mut f, mem, mut blk) = block(vec![0u8; 1024]);
    request(&mut f, mem, 0x42, 0, VIRTQ_DESC_F_WRITE, 512);
    publish(&mut f, mem, &[0], 16, 0);
    let n = blk.notify(&mut f, 0);
    assert!(n.served.is_empty());
    assert_eq!(n.error, Some(Error::ClientError("invalid block ty 0x42!".to_string())));
    assert_eq!(blk.virtio_device.get_queue(0).unwrap().last_avail_idx, 0);
    assert_eq!(f.read_u16(mem, USED + 2), Ok(0));
    assert_eq!(f.read_u8(mem, 0x6000), Ok(0x01));
    assert_eq!(bytes_at(&f, mem, 0x5000, 512), vec![0u8; 512]);
    assert_eq!(blk.device().read_register(REG_INTERRUPT_STATUS), 0);
    assert_eq!(blk.virtio_device.irq_vec.pending_at(0), Ok(false));
    // the status goes to the last byte that the device can write
    put_desc(&mut f, mem, DESC, 2, Descriptor { addr: 0x6000, len: 0, flags: VIRTQ_DESC_F_WRITE, next: 0 });
    let n = blk.notify(&mut f, 0);
    assert_eq!(n.error, Some(Error::ClientError("invalid block ty 0x42!".to_string())));
    assert_eq!(f.read_u8(mem, 0x5000 + 511), Ok(0x01));
    assert_eq!(bytes_at(&f, mem, 0x5000, 511), vec![0u8; 511]);
}

#[test]
fn block_request_without_a_whole_header_is_a_client_error() {
    let (mut f, mem, mut blk) = block(vec![0u8; 1024]);
    put_desc(&mut f, mem, DESC, 0, Descriptor { addr: 0x4000, len: 15, flags: VIRTQ_DESC_F_NEXT, next: 1 });
    put_desc(&mut f, mem, DESC, 1, Descriptor { addr: 0x6000, len: 1, flags: VIRTQ_DESC_F_WRITE, next: 0 });
    publish(&mut f, mem, &[0], 16, 0);
    let n = blk.notify(&mut f, 0);
    assert!(n.served.is_empty());
    assert_eq!(n.error, Some(Error::ClientError("invalid block header!".to_string())));
    // a read with nowhere to put the status
    f.bytes_write(mem, 0x4000, &header(0, 0)).unwrap();
    put_desc(&mut f, mem, DESC, 0, Descriptor { addr: 0x4000, len: 16, flags: 0, next: 0 });
    let n = blk.notify(&mut f, 0);
    assert_eq!(n.error, Some(Error::ClientError("invalid block request!".to_string())));
    assert_eq!(blk.virtio_device.get_queue(0).unwrap().last_avail_idx, 0);
    // a write of nothing needs the header alone
    f.bytes_write(mem, 0x4000, &header(1, 0)).unwrap();
    let n = blk.notify(&mut f, 0);
    assert_eq!(n.error, None);
    assert_eq!(n.served, vec![Served { head: 0, len: 1, raise: Some(OUTER) }]);
    assert_eq!(f.read_u8(mem, 0x4000), Ok(0x00));
}

#[test]
fn used_ring_follows_the_available_ring() {
    let (mut f, mem, mut blk) = block(vec![0u8; 4096]);
    // three requests with heads 4, 2 and 7, each a header and a status
    for (k, head) in [4u16, 2, 7].iter().enumerate() {
        let h = 0x4000 + 0x100 * k as u64;
        f.bytes_write(mem, h, &header(0, k as u64)).unwrap();
        put_desc(&mut f, mem, DESC, *head as u64, Descriptor { addr: h, len: 16, flags: VIRTQ_DESC_F_NEXT, next: head + 1 });
        put_desc(
            &mut f,
            mem,
            DESC,
            *head as u64 + 1,
            Descriptor { addr: 0x6000 + k as u64, len: 1, flags: VIRTQ_DESC_F_WRITE, next: 0 },
        );
    }
    publish(&mut f, mem, &[4, 2, 7], 16, 0);
    let n = blk.notify(&mut f, 0);
    assert_eq!(n.error, None);
    let ids: Vec<u16> = n.served.iter().map(|s| s.head).collect();
    assert_eq!(ids, vec![4, 2, 7]);
    assert_eq!(used_entry(&mut f, mem, 0), (4, 1));
    assert_eq!(used_entry(&mut f, mem, 1), (2, 1));
    assert_eq!(used_entry(&mut f, mem, 2), (7, 1));
    assert_eq!(f.read_u16(mem, USED + 2), Ok(3));
    assert_eq!(blk.virtio_device.get_queue(0).unwrap().last_avail_idx, 3);
    // a bad request in the middle stops the service there
    f.bytes_write(mem, 0x4100, &header(9, 0)).unwrap();
    publish(&mut f, mem, &[4, 2, 7], 16, 3);
    let n = blk.notify(&mut f, 0);
    assert_eq!(n.served.iter().map(|s| s.head).collect::<Vec<u16>>(), vec![4]);
    assert_eq!(n.error, Some(Error::ClientError("invalid block ty 0x9!".to_string())));
    assert_eq!(blk.virtio_device.get_queue(0).unwrap().last_avail_idx, 4);
    assert_eq!(f.read_u16(mem, USED + 2), Ok(4));
    assert_eq!(bytes_at(&f, mem, 0x6000, 3), vec![0, 1, 0]);
}

#[test]
fn block_config_space_holds_the_capacity() {
    let (_f, _mem, mut blk) = block(vec![0u8; 512 * 0x0102 + 100]);
    assert_eq!(blk.num_sectors, 0x0102);
    let mut all = vec![0xffu8; 8];
    blk.config(0, &mut all);
    assert_eq!(all, vec![2, 1, 0, 0, 0, 0, 0, 0]);
    let mut part = vec![0xffu8; 2];
    blk.read_bytes(0x100 + 1, &mut part);
    assert_eq!(part, vec![1, 0]);
    let mut over = vec![0xffu8; 4];
    blk.config(6, &mut over);
    assert_eq!(over, vec![0xff; 4]);
    blk.config(8, &mut part);
    assert_eq!(part, vec![1, 0]);
    let mut word = vec![0u8; 4];
    blk.read_bytes(REG_DEVICE_ID, &mut word);
    assert_eq!(word, vec![2, 0, 0, 0]);
    assert_eq!(blk.write_bytes(0x100, &[1, 2, 3, 4]), Action::Idle);
    assert_eq!(blk.write_bytes(REG_QUEUE_NOTIFY, &[0, 0, 0, 0]), Action::Notify(0));
    assert_eq!(blk.write_bytes(REG_QUEUE_NOTIFY, &[1, 0, 0, 0]), Action::Idle);
    let (mut f, _) = guest();
    let n = blk.notify(&mut f, 3);
    assert_eq!(n.error, Some(Error::OutOfRange));
}

#[test]
fn block_modes_by_name() {
    assert_eq!(VirtIOBlkConfig::new("ro"), VirtIOBlkConfig::RO);
    assert_eq!(VirtIOBlkConfig::new("rw"), VirtIOBlkConfig::RW);
    assert_eq!(VirtIOBlkConfig::new("snapshot"), VirtIOBlkConfig::SNAPSHOT);
    assert_eq!(VirtIOBlkConfig::new(""), VirtIOBlkConfig::SNAPSHOT);
    assert_eq!(VirtIOBlkConfig::new("RO"), VirtIOBlkConfig::SNAPSHOT);
}

#[test]
fn block_header_is_decoded_byte_by_byte() {
    let mut bytes = header(0x0403_0201, 0x0807_0605_0403_0201);
    bytes[4] = 0x55;
    bytes.push(0xff);
    let h = VirtIOBlkHeader::parse(&bytes);
    assert_eq!(h, VirtIOBlkHeader { ty: 0x0403_0201, ioprio: 0x55, sector_num: 0x0807_0605_0403_0201 });
    assert_eq!(h.offset(), 0x0807_0605_0403_0201u64 << 9);
    assert_eq!(VirtIOBlkHeader { ty: 0, ioprio: 0, sector_num: 3 }.offset(), 1536);
    assert_eq!(VirtIOBlkHeader::default(), VirtIOBlkHeader { ty: 0, ioprio: 0, sector_num: 0 });
}

#[test]
fn snapshot_write_then_read_is_the_identity() {
    let mut disk = VirtIOBlkDiskSnapshot::new(vec![0u8; 64]);
    assert_eq!(disk.len(), 64);
    assert_eq!(disk.write(10, &[1, 2, 3, 4]), Ok(4));
    let mut back = vec![0u8; 6];
    assert_eq!(disk.read(9, &mut back), Ok(6));
    assert_eq!(back, vec![0, 1, 2, 3, 4, 0]);
    assert!(disk.write(61, &[1, 2, 3, 4]).is_err());
    assert!(disk.read(61, &mut back).is_err());
    assert!(disk.read(u64::MAX, &mut back).is_err());
    assert_eq!(disk.write(60, &[9, 9, 9, 9]), Ok(4));
    assert_eq!(&disk.data()[58..], &[0, 0, 9, 9, 9, 9]);
}

fn console() -> (Fabric<NullDevice>, Region, VirtIOConsole) {
    let (f, mem) = guest();
    let mut c = VirtIOConsole::new(VirtIOConsoleDevice::new(mem, OUTER));
    let q = Queue { max_queue_size: 1, ..ready_queue(mem, 1) };
    c.console.virtio_device.set_queue(0, Queue { desc_addr: 0x1800, avail_addr: 0x2800, used_addr: 0x3800, ..q });
    c.console.virtio_device.set_queue(1, q);
    (f, mem, c)
}

#[test]
fn console_output_reaches_the_sink() {
    let (mut f, mem, mut c) = console();
    f.bytes_write(mem, 0x4000, b"hello\n").unwrap();
    put_desc(&mut f, mem, DESC, 0, Descriptor { addr: 0x4000, len: 6, flags: 0, next: 0 });
    publish(&mut f, mem, &[0], 1, 0);
    let n = c.notify(&mut f, 1);
    assert_eq!(n.error, None);
    assert_eq!(n.served, vec![Served { head: 0, len: 6, raise: Some(OUTER) }]);
    assert_eq!(c.console.output.take_output(), b"hello\n".to_vec());
    assert!(c.console.output.take_output().is_empty());
    assert_eq!(used_entry(&mut f, mem, 0), (0, 6));
    assert_eq!(f.read_u16(mem, USED + 2), Ok(1));
    assert_eq!(c.device().read_register(REG_INTERRUPT_STATUS), 1);
    assert_eq!(c.console.virtio_device.get_queue(1).unwrap().last_avail_idx, 1);
    // an empty descriptor prints nothing and is used all the same
    put_desc(&mut f, mem, DESC, 0, Descriptor { addr: 0x4000, len: 0, flags: 0, next: 0 });
    publish(&mut f, mem, &[0], 1, 1);
    let n = c.notify(&mut f, 1);
    assert_eq!(n.served, vec![Served { head: 0, len: 0, raise: Some(OUTER) }]);
    assert!(c.console.output.take_output().is_empty());
    // a buffer outside guest memory
    put_desc(&mut f, mem, DESC, 0, Descriptor { addr: 0xffff, len: 6, flags: 0, next: 0 });
    publish(&mut f, mem, &[0], 1, 2);
    let n = c.notify(&mut f, 1);
    assert!(n.served.is_empty());
    assert_eq!(n.error, Some(Error::OutOfRange));
    assert_eq!(c.console.virtio_device.get_queue(1).unwrap().last_avail_idx, 2);
}

#[test]
fn console_input_queue_declines_notifies() {
    let (mut f, mem, mut c) = console();
    put_desc(&mut f, mem, 0x1800, 0, Descriptor { addr: 0x4000, len: 6, flags: VIRTQ_DESC_F_WRITE, next: 0 });
    f.write_u16(mem, 0x2800 + 4, 0).unwrap();
    f.write_u16(mem, 0x2800 + 2, 1).unwrap();
    let n = c.notify(&mut f, 0);
    assert!(n.served.is_empty());
    assert_eq!(n.error, None);
    assert_eq!(c.console.virtio_device.get_queue(0).unwrap().last_avail_idx, 0);
    assert_eq!(f.read_u16(mem, 0x3800 + 2), Ok(0));
}

#[test]
fn console_input_is_installed_in_the_pending_buffer() {
    let (mut f, mem, mut c) = console();
    assert_eq!(c.console.input_request(&f), Ok(None));
    put_desc(&mut f, mem, 0x1800, 0, Descriptor { addr: 0x4000, len: 200, flags: VIRTQ_DESC_F_WRITE, next: 0 });
    f.write_u16(mem, 0x2800 + 4, 0).unwrap();
    f.write_u16(mem, 0x2800 + 2, 1).unwrap();
    let want = c.console.input_request(&f).unwrap().unwrap();
    assert_eq!(want, InputRequest { head: 0, addr: 0x4000, len: 128 });
    // nothing to install
    assert_eq!(c.console.console_read(&mut f, want, &[]), Ok(None));
    assert_eq!(f.read_u16(mem, 0x3800 + 2), Ok(0));
    // more than was asked for
    assert_eq!(c.console.console_read(&mut f, want, &[0u8; 129]), Err(Error::OutOfRange));
    let r = c.console.console_read(&mut f, want, b"ls\n");
    assert_eq!(r, Ok(Some(Served { head: 0, len: 3, raise: Some(OUTER) })));
    assert_eq!(bytes_at(&f, mem, 0x4000, 4), vec![b'l', b's', b'\n', 0]);
    assert_eq!(f.read_u16(mem, 0x3800 + 2), Ok(1));
    assert_eq!(f.read_u32(mem, 0x3800 + 4), Ok(0));
    assert_eq!(f.read_u32(mem, 0x3800 + 8), Ok(3));
    assert_eq!(c.console.virtio_device.get_queue(0).unwrap().last_avail_idx, 1);
    assert_eq!(c.device().read_register(REG_INTERRUPT_STATUS), 1);
    assert_eq!(c.console.input_request(&f), Ok(None));
    // a short buffer takes what it can hold
    put_desc(&mut f, mem, 0x1800, 0, Descriptor { addr: 0x4000, len: 5, flags: VIRTQ_DESC_F_WRITE, next: 0 });
    f.write_u16(mem, 0x2800 + 2, 2).unwrap();
    assert_eq!(c.console.input_request(&f), Ok(Some(InputRequest { head: 0, addr: 0x4000, len: 5 })));
    let mut unready = c.console.virtio_device.get_queue(0).unwrap();
    unready.set_ready(false);
    c.console.virtio_device.set_queue(0, unready);
    assert_eq!(c.console.input_request(&f), Ok(None));
    assert_eq!(c.console.console_read(&mut f, want, b"x"), Err(Error::NotReady));
}

#[test]
fn console_registers() {
    let (_f, _mem, mut c) = console();
    let mut word = vec![0u8; 4];
    c.read_bytes(REG_DEVICE_ID, &mut word);
    assert_eq!(word, vec![3, 0, 0, 0]);
    c.read_bytes(REG_DEVICE_FEATURES, &mut word);
    assert_eq!(word, vec![1, 0, 0, 0]);
    assert_eq!(c.write_bytes(REG_QUEUE_NOTIFY, &[1, 0, 0, 0]), Action::Notify(1));
    assert_eq!(c.write_bytes(REG_QUEUE_NOTIFY, &[2, 0, 0, 0]), Action::Idle);
    assert_eq!(c.write_bytes(REG_STATUS, &[0, 0, 0, 0]), Action::Reset);
    assert!(!c.console.virtio_device.get_queue(1).unwrap().ready);
}
