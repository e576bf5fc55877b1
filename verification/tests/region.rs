use terminus_spaceport::access::{IoAccess, NullDevice};
use terminus_spaceport::devices::armory::display::{Fb, SimpleFb};
use terminus_spaceport::devices::PixelFormat;
use terminus_spaceport::error::Error;
use terminus_spaceport::memory::MemInfo;
use terminus_spaceport::region::{Fabric, Heap, Region};

#[test]
fn heap_span_must_fit() {
    let mut fabric: Fabric<NullDevice> = Fabric::new();
    assert_eq!(fabric.new_heap(u64::MAX - 10, 64), Err(Error::OutOfRange));
    assert_eq!(fabric.allocate(Heap(0), 8, 1), Err(Error::OutOfRange));
    let heap = fabric.new_heap(0x1000, 64).unwrap();
    assert_eq!(heap, Heap(0));
    assert!(fabric.is_live_heap(heap));
}

#[test]
fn root_region_round_trips_every_width() {
    let mut fabric: Fabric<NullDevice> = Fabric::new();
    let heap = fabric.new_heap(0x1000, 0x1000).unwrap();
    let r = fabric.allocate(heap, 64, 16).unwrap();
    let base = fabric.info(r).unwrap().base;
    assert_eq!(fabric.read_u64(r, base), Ok(0));
    fabric.write_u8(r, base + 1, 0xa5).unwrap();
    assert_eq!(fabric.read_u8(r, base + 1), Ok(0xa5));
    fabric.write_u16(r, base + 2, 0xbeef).unwrap();
    assert_eq!(fabric.read_u16(r, base + 2), Ok(0xbeef));
    fabric.write_u32(r, base + 4, 0xdead_beef).unwrap();
    assert_eq!(fabric.read_u32(r, base + 4), Ok(0xdead_beef));
    fabric.write_u64(r, base + 8, 0x0123_4567_89ab_cdef).unwrap();
    assert_eq!(fabric.read_u64(r, base + 8), Ok(0x0123_4567_89ab_cdef));
    // least significant byte first
    assert_eq!(fabric.read_u8(r, base + 8), Ok(0xef));
    assert_eq!(fabric.read_u8(r, base + 15), Ok(0x01));
    assert_eq!(fabric.read_u16(r, base + 4), Ok(0xbeef));
    // misaligned accesses work on storage
    assert_eq!(fabric.read_u32(r, base + 1), Ok(0xefbe_efa5));
}

#[test]
fn accesses_outside_the_region_fail() {
    let mut fabric: Fabric<NullDevice> = Fabric::new();
    let heap = fabric.new_heap(0x1000, 0x1000).unwrap();
    let r = fabric.allocate(heap, 64, 64).unwrap();
    let info = fabric.info(r).unwrap();
    assert_eq!(fabric.read_u8(r, info.base - 1), Err(Error::OutOfRange));
    assert_eq!(fabric.read_u8(r, info.base + 64), Err(Error::OutOfRange));
    assert_eq!(fabric.read_u32(r, info.base + 61), Err(Error::OutOfRange));
    assert_eq!(fabric.write_u64(r, info.base + 57, 1), Err(Error::OutOfRange));
    assert_eq!(fabric.write_u64(r, info.base + 56, 1), Ok(8));
    assert_eq!(fabric.read_u8(r, u64::MAX), Err(Error::OutOfRange));
    let mut buf = vec![0u8; 65];
    assert_eq!(fabric.bytes_read(r, info.base, &mut buf), Err(Error::OutOfRange));
    assert_eq!(fabric.bytes_write(r, info.base, &buf), Err(Error::OutOfRange));
    assert_eq!(fabric.read_u8(Region(99), 0), Err(Error::OutOfRange));
}

#[test]
fn bulk_access_equals_byte_accesses() {
    let mut fabric: Fabric<NullDevice> = Fabric::new();
    let heap = fabric.new_heap(0, 0x100).unwrap();
    let r = fabric.allocate(heap, 32, 1).unwrap();
    let data: Vec<u8> = (1..=8).collect();
    assert_eq!(fabric.bytes_write(r, 4, &data), Ok(8));
    for i in 0..8u64 {
        assert_eq!(fabric.read_u8(r, 4 + i), Ok(i as u8 + 1));
    }
    let mut back = vec![0u8; 10];
    assert_eq!(fabric.bytes_read(r, 3, &mut back), Ok(10));
    assert_eq!(back, vec![0, 1, 2, 3, 4, 5, 6, 7, 8, 0]);
    assert_eq!(fabric.load_bytes(r, 4, 8), Some(data));
    assert_eq!(fabric.load_bytes(r, 30, 3), None);
    assert_eq!(fabric.load_value(r, 4, 2), Some(0x0201));
    assert!(fabric.store_value(r, 0, 0x1122_3344, 4));
    assert_eq!(fabric.load_bytes(r, 0, 4), Some(vec![0x44, 0x33, 0x22, 0x11]));
    assert!(!fabric.store_value(r, 30, 0x1122_3344, 4));
}

#[test]
fn remap_reads_what_its_target_holds() {
    let mut fabric: Fabric<NullDevice> = Fabric::new();
    let heap = fabric.new_heap(0x1000, 0x1000).unwrap();
    let target = fabric.allocate(heap, 16, 16).unwrap();
    let t = fabric.info(target).unwrap();
    let remap = fabric.remap(0x8000_0000, target).unwrap();
    assert_eq!(fabric.info(remap), Ok(MemInfo { base: 0x8000_0000, size: 16 }));
    for i in 0..16u64 {
        fabric.write_u8(target, t.base + i, 0x10 + i as u8).unwrap();
    }
    for i in 0..16u64 {
        assert_eq!(fabric.read_u8(remap, 0x8000_0000 + i), fabric.read_u8(target, i + t.base));
    }
    fabric.write_u32(remap, 0x8000_0004, 0xcafe_f00d).unwrap();
    assert_eq!(fabric.read_u32(target, t.base + 4), Ok(0xcafe_f00d));
    assert_eq!(fabric.read_u8(remap, 0x8000_0010), Err(Error::OutOfRange));
    // a remap of a remap
    let again = fabric.remap(0x10, remap).unwrap();
    assert_eq!(fabric.read_u32(again, 0x14), Ok(0xcafe_f00d));
}

#[test]
fn partial_remap_is_a_window() {
    let mut fabric: Fabric<NullDevice> = Fabric::new();
    let heap = fabric.new_heap(0, 0x100).unwrap();
    let target = fabric.allocate(heap, 16, 1).unwrap();
    for i in 0..16u64 {
        fabric.write_u8(target, i, i as u8).unwrap();
    }
    let window = fabric.remap_partial(0x4000, target, 4, 8).unwrap();
    assert_eq!(fabric.info(window), Ok(MemInfo { base: 0x4000, size: 8 }));
    assert_eq!(fabric.read_u8(window, 0x4000), Ok(4));
    assert_eq!(fabric.read_u8(window, 0x4007), Ok(11));
    assert_eq!(fabric.read_u8(window, 0x4008), Err(Error::OutOfRange));
    assert_eq!(fabric.remap_partial(0x4000, target, 9, 8), Err(Error::OutOfRange));
    assert_eq!(fabric.remap_partial(0x4000, target, 17, 0), Err(Error::OutOfRange));
    assert_eq!(fabric.remap_partial(u64::MAX - 3, target, 0, 8), Err(Error::OutOfRange));
    assert!(fabric.remap_partial(0x4000, target, 16, 0).is_ok());
    assert_eq!(fabric.remap(0, Region(77)), Err(Error::OutOfRange));
}

#[test]
fn dropping_a_root_returns_its_block() {
    let mut fabric: Fabric<NullDevice> = Fabric::new();
    let heap = fabric.new_heap(0, 0x100).unwrap();
    let a = fabric.allocate(heap, 0x40, 1).unwrap();
    let b = fabric.allocate(heap, 0x40, 1).unwrap();
    let info_a = fabric.info(a).unwrap();
    let info_b = fabric.info(b).unwrap();
    fabric.release(a).unwrap();
    assert_eq!(fabric.allocated_list(heap).unwrap(), &vec![info_b]);
    assert_eq!(
        fabric.free_list(heap).unwrap(),
        &vec![info_a, MemInfo { base: 0x80, size: 0x80 }]
    );
    assert_eq!(fabric.info(a), Err(Error::OutOfRange));
    assert_eq!(fabric.release(a), Err(Error::OutOfRange));
    assert_eq!(fabric.retain(a), Err(Error::OutOfRange));
    assert_eq!(fabric.read_u8(a, 0), Err(Error::OutOfRange));
}

#[test]
fn dropping_a_remap_leaves_the_heap_alone() {
    let mut fabric: Fabric<NullDevice> = Fabric::new();
    let heap = fabric.new_heap(0, 0x100).unwrap();
    let a = fabric.allocate(heap, 0x40, 1).unwrap();
    let remap = fabric.remap(0x1000, a).unwrap();
    let before_free = fabric.free_list(heap).unwrap().clone();
    let before_allocated = fabric.allocated_list(heap).unwrap().clone();
    fabric.release(remap).unwrap();
    assert!(!fabric.is_live(remap));
    assert!(fabric.is_live(a));
    assert_eq!(fabric.free_list(heap).unwrap(), &before_free);
    assert_eq!(fabric.allocated_list(heap).unwrap(), &before_allocated);
}

#[test]
fn a_remap_keeps_its_target_alive() {
    let mut fabric: Fabric<NullDevice> = Fabric::new();
    let heap = fabric.new_heap(0, 0x100).unwrap();
    let a = fabric.allocate(heap, 0x40, 1).unwrap();
    let info = fabric.info(a).unwrap();
    let remap = fabric.remap(0x1000, a).unwrap();
    fabric.release(a).unwrap();
    assert!(fabric.is_live(a));
    assert_eq!(fabric.holders(a), Some(0));
    assert_eq!(fabric.release(a), Err(Error::OutOfRange));
    assert_eq!(fabric.allocated_list(heap).unwrap(), &vec![info]);
    fabric.write_u8(remap, 0x1000, 7).unwrap();
    fabric.release(remap).unwrap();
    assert!(!fabric.is_live(a));
    assert!(fabric.allocated_list(heap).unwrap().is_empty());
    assert_eq!(fabric.free_list(heap).unwrap(), &vec![MemInfo { base: 0, size: 0x100 }]);
}

#[test]
fn retain_adds_a_holder() {
    let mut fabric: Fabric<NullDevice> = Fabric::new();
    let heap = fabric.new_heap(0, 0x100).unwrap();
    let a = fabric.allocate(heap, 0x40, 1).unwrap();
    assert_eq!(fabric.holders(a), Some(1));
    fabric.retain(a).unwrap();
    assert_eq!(fabric.holders(a), Some(2));
    fabric.release(a).unwrap();
    assert!(fabric.is_live(a));
    fabric.release(a).unwrap();
    assert!(!fabric.is_live(a));
    assert_eq!(fabric.holders(a), None);
}

#[test]
fn heaps_nest_and_share_bytes() {
    let mut fabric: Fabric<NullDevice> = Fabric::new();
    let heap = fabric.new_heap(0x1000, 0x1000).unwrap();
    let outer = fabric.allocate(heap, 0x100, 0x100).unwrap();
    let outer_info = fabric.info(outer).unwrap();
    let nested = fabric.nested_heap(outer).unwrap();
    assert_eq!(fabric.free_list(nested).unwrap(), &vec![outer_info]);
    let inner = fabric.allocate(nested, 0x10, 0x10).unwrap();
    let inner_info = fabric.info(inner).unwrap();
    assert_eq!(inner_info, MemInfo { base: outer_info.base, size: 0x10 });
    fabric.write_u32(inner, inner_info.base + 4, 0x1234_5678).unwrap();
    assert_eq!(fabric.read_u32(outer, outer_info.base + 4), Ok(0x1234_5678));
    // the heap lives on through its region, the outer region through the heap
    fabric.release_heap(nested).unwrap();
    fabric.release(outer).unwrap();
    assert!(fabric.is_live_heap(nested));
    assert!(fabric.is_live(outer));
    fabric.release(inner).unwrap();
    assert!(!fabric.is_live_heap(nested));
    assert!(!fabric.is_live(outer));
    assert_eq!(fabric.free_list(heap).unwrap(), &vec![MemInfo { base: 0x1000, size: 0x1000 }]);
    assert_eq!(fabric.nested_heap(outer), Err(Error::OutOfRange));
    assert_eq!(fabric.release_heap(nested), Err(Error::OutOfRange));
    assert_eq!(fabric.retain_heap(nested), Err(Error::OutOfRange));
    assert!(fabric.free_list(nested).is_none());
}

#[test]
fn io_region_hands_offsets_to_its_device() {
    let mut fabric: Fabric<SimpleFb> = Fabric::new();
    let fb = SimpleFb::new(Fb::new(64, 64, PixelFormat::RGB565));
    let io = fabric.io(0x4000_0000, 8192, fb).unwrap();
    assert_eq!(fabric.info(io), Ok(MemInfo { base: 0x4000_0000, size: 8192 }));
    assert_eq!(fabric.write_u32(io, 0x4000_1000, 0xaabb_ccdd), Ok(4));
    assert_eq!(fabric.read_u32(io, 0x4000_1000), Ok(0xaabb_ccdd));
    assert_eq!(fabric.read_u8(io, 0x4000_1001), Ok(0xcc));
    assert_eq!(fabric.read_u8(io, 0x4000_2000), Err(Error::OutOfRange));
    // storage-only accessors decline a device
    assert_eq!(fabric.load_bytes(io, 0x4000_0000, 4), None);
    assert!(!fabric.store_value(io, 0x4000_0000, 1, 4));
    assert!(!fabric.is_stored(io, 0x4000_0000, 4));
    assert_eq!(fabric.io(u64::MAX, 2, SimpleFb::new(Fb::new(1, 1, PixelFormat::RGB888))), Err(Error::OutOfRange));
}

#[test]
fn a_device_may_refuse() {
    let mut fabric: Fabric<NullDevice> = Fabric::new();
    let io = fabric.io(0, 16, NullDevice::new()).unwrap();
    assert_eq!(fabric.read_u8(io, 0), Err(Error::IoError("no device".to_string())));
    assert_eq!(fabric.write_u8(io, 0, 1), Err(Error::IoError("no device".to_string())));
    let mut d = NullDevice::new();
    let mut buf = vec![0u8; 2];
    assert!(d.read(0, &mut buf).is_err());
    assert!(d.write(0, &buf).is_err());
}

#[test]
fn values_are_spelled_least_significant_byte_first() {
    use_codec();
}

fn use_codec() {
    assert_eq!(terminus_spaceport::access::encode(0x0102_0304, 4), vec![4, 3, 2, 1]);
    assert_eq!(terminus_spaceport::access::encode(0x0102_0304, 2), vec![4, 3]);
    assert_eq!(terminus_spaceport::access::encode(0x01, 8), vec![1, 0, 0, 0, 0, 0, 0, 0]);
    assert_eq!(terminus_spaceport::access::encode(7, 0), Vec::<u8>::new());
    assert_eq!(terminus_spaceport::access::decode(&vec![4, 3, 2, 1]), 0x0102_0304);
    assert_eq!(terminus_spaceport::access::decode(&vec![0xff; 8]), u64::MAX);
    assert_eq!(terminus_spaceport::access::decode(&vec![]), 0);
    assert_eq!(MemInfo::new(3, 4), MemInfo { base: 3, size: 4 });
}
