use terminus_spaceport::access::NullDevice;
use terminus_spaceport::error::Error;
use terminus_spaceport::memory::MemInfo;
use terminus_spaceport::region::{Fabric, Heap};
use terminus_spaceport::space::{Space, SpaceTable};

fn granted(fabric: &Fabric<NullDevice>, heap: Heap, info: MemInfo) -> Option<MemInfo> {
    fabric.allocated_list(heap).unwrap().iter().copied().find(|i| i == &info)
}

#[test]
fn space_drop() {
    let mut fabric: Fabric<NullDevice> = Fabric::new();
    let mut space = Space::new("space_drop");
    let heap = fabric.new_heap(0, 1 << 20).unwrap();
    let allocated = fabric.allocate(heap, 188, 1024).unwrap();
    let region = space.add_region(&mut fabric, "region", allocated).unwrap();
    let info = fabric.info(region).unwrap();
    let heap1 = fabric.nested_heap(space.get_region("region").unwrap()).unwrap();
    let remap = fabric.remap(0x80000000, space.get_region("region").unwrap()).unwrap();
    let remap2 = fabric.remap(0x10000000, space.get_region("region").unwrap()).unwrap();
    println!("{:?}", fabric.allocated_list(heap).unwrap());
    assert_ne!(granted(&fabric, heap, info), None);
    fabric.release(region).unwrap();
    println!("{:?}", fabric.allocated_list(heap).unwrap());
    assert_ne!(granted(&fabric, heap, info), None);
    fabric.release(remap2).unwrap();
    println!("{:?}", fabric.allocated_list(heap).unwrap());
    assert_ne!(granted(&fabric, heap, info), None);
    let region1 = fabric.allocate(heap1, 2, 1).unwrap();
    fabric.release_heap(heap1).unwrap();
    println!("{:?}", fabric.allocated_list(heap).unwrap());
    assert_ne!(granted(&fabric, heap, info), None);
    let remap3 = fabric.remap(0x10000000, region1).unwrap();
    fabric.release(region1).unwrap();
    println!("{:?}", fabric.allocated_list(heap).unwrap());
    assert_ne!(granted(&fabric, heap, info), None);
    fabric.release(remap3).unwrap();
    println!("{:?}", fabric.allocated_list(heap).unwrap());
    assert_ne!(granted(&fabric, heap, info), None);
    fabric.release(remap).unwrap();
    assert_ne!(granted(&fabric, heap, info), None);
    space.delete_region(&mut fabric, "region");
    println!("{:?}", fabric.allocated_list(heap).unwrap());
    assert_eq!(granted(&fabric, heap, info), None);
}

#[test]
fn space_query() {
    let mut fabric: Fabric<NullDevice> = Fabric::new();
    let mut space = Space::new("space_query");
    let heap = fabric.new_heap(0, 1 << 20).unwrap();
    let a = fabric.allocate(heap, 9, 1).unwrap();
    let region = space.add_region(&mut fabric, "region", a).unwrap();
    let b = fabric.allocate(heap, 9, 1).unwrap();
    let b_remap = fabric.remap(0x80000000, b).unwrap();
    let region2 = space.add_region(&mut fabric, "region2", b_remap).unwrap();
    let c_remap = fabric.remap(0x10000000, region).unwrap();
    let region3 = space.add_region(&mut fabric, "region3", c_remap).unwrap();
    let info2 = fabric.info(region2).unwrap();
    let info3 = fabric.info(region3).unwrap();
    let hit2 = space.get_region_by_addr(info2.base + 8).unwrap();
    assert_eq!(fabric.info(hit2).unwrap(), info2);
    let hit3 = space.get_region_by_addr(info3.base + 2).unwrap();
    assert_eq!(fabric.info(hit3).unwrap(), info3);
    assert_eq!(space.get_region_by_addr(0x90000000), Err(Error::OutOfRange));
    let r = space.get_region("region2").expect("not get region2");
    for i in 0..10 {
        fabric.write_u8(r, info2.base + 8, i).unwrap();
        assert_eq!(fabric.read_u8(r, info2.base + 8), Ok(i));
    }
}

#[test]
fn add_region_refuses_names_and_overlaps() {
    let mut fabric: Fabric<NullDevice> = Fabric::new();
    let mut space = Space::new("s");
    assert!(space.is_named("s"));
    assert!(!space.is_named("t"));
    let heap = fabric.new_heap(0, 0x1000).unwrap();
    let a = fabric.allocate(heap, 0x100, 1).unwrap();
    let b = fabric.allocate(heap, 0x100, 1).unwrap();
    assert_eq!(space.add_region(&mut fabric, "a", a), Ok(a));
    assert_eq!(fabric.holders(a), Some(2));
    assert_eq!(space.add_region(&mut fabric, "a", b), Err(Error::NameExists));
    assert_eq!(fabric.holders(b), Some(1));
    let over = fabric.remap(0xff, b).unwrap();
    assert_eq!(space.add_region(&mut fabric, "over", over), Err(Error::Overlap));
    let inside = fabric.remap_partial(0x10, b, 0, 4).unwrap();
    assert_eq!(space.add_region(&mut fabric, "inside", inside), Err(Error::Overlap));
    let same_base = fabric.remap_partial(0, b, 0, 0).unwrap();
    assert_eq!(space.add_region(&mut fabric, "same", same_base), Err(Error::Overlap));
    assert_eq!(space.add_region(&mut fabric, "b", b), Ok(b));
    assert_eq!(space.len(), 2);
    fabric.release(over).unwrap();
    assert_eq!(space.add_region(&mut fabric, "gone", over), Err(Error::OutOfRange));
    assert_eq!(space.get_region("a"), Some(a));
    assert_eq!(space.get_region("b"), Some(b));
    assert_eq!(space.get_region("c"), None);
}

#[test]
fn lookup_by_address_finds_the_one_region() {
    let mut fabric: Fabric<NullDevice> = Fabric::new();
    let mut space = Space::new("s");
    let heap = fabric.new_heap(0, 0x1000).unwrap();
    let a = fabric.allocate(heap, 9, 1).unwrap();
    let b = fabric.remap(0x8000_0000, a).unwrap();
    let c = fabric.remap(0x1000_0000, a).unwrap();
    space.add_region(&mut fabric, "A", a).unwrap();
    space.add_region(&mut fabric, "B", b).unwrap();
    space.add_region(&mut fabric, "C", c).unwrap();
    assert_eq!(space.get_region_by_addr(0), Ok(a));
    assert_eq!(space.get_region_by_addr(8), Ok(a));
    assert_eq!(space.get_region_by_addr(9), Err(Error::OutOfRange));
    assert_eq!(space.get_region_by_addr(0x8000_0008), Ok(b));
    assert_eq!(space.get_region_by_addr(0x1000_0002), Ok(c));
    assert_eq!(space.get_region_by_addr(0x9000_0000), Err(Error::OutOfRange));
    assert_eq!(space.get_region_by_addr(0x0fff_ffff), Err(Error::OutOfRange));
    assert_eq!(space.get_region_by_addr(u64::MAX), Err(Error::OutOfRange));
}

#[test]
fn delete_region_gives_up_the_hold() {
    let mut fabric: Fabric<NullDevice> = Fabric::new();
    let mut space = Space::new("s");
    let heap = fabric.new_heap(0, 0x1000).unwrap();
    let a = fabric.allocate(heap, 9, 1).unwrap();
    space.add_region(&mut fabric, "A", a).unwrap();
    assert!(!space.delete_region(&mut fabric, "B"));
    assert!(space.delete_region(&mut fabric, "A"));
    assert!(fabric.is_live(a));
    assert_eq!(fabric.holders(a), Some(1));
    assert_eq!(space.len(), 0);
    assert_eq!(space.get_region_by_addr(0), Err(Error::OutOfRange));
    assert!(!space.delete_region(&mut fabric, "A"));
}

#[test]
fn table_gets_or_creates() {
    let mut fabric: Fabric<NullDevice> = Fabric::new();
    let mut table = SpaceTable::new();
    assert_eq!(table.len(), 0);
    assert!(table.find_space("main").is_none());
    let heap = fabric.new_heap(0, 0x1000).unwrap();
    let a = fabric.allocate(heap, 9, 1).unwrap();
    table.get_space("main").add_region(&mut fabric, "A", a).unwrap();
    assert_eq!(table.len(), 1);
    table.get_space("other");
    assert_eq!(table.len(), 2);
    assert_eq!(table.get_space("main").get_region("A"), Some(a));
    assert_eq!(table.len(), 2);
    assert_eq!(table.find_space("main").unwrap().len(), 1);
    assert_eq!(table.find_space("other").unwrap().len(), 0);
}
