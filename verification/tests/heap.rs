use terminus_spaceport::access::NullDevice;
use terminus_spaceport::error::Error;
use terminus_spaceport::heap::Allocator;
use terminus_spaceport::memory::MemInfo;
use terminus_spaceport::region::Fabric;

fn total(list: &Vec<MemInfo>) -> u64 {
    list.iter().map(|b| b.size).sum()
}

#[test]
fn allocate_aligned_from_one_mib_heap() {
    let mut fabric: Fabric<NullDevice> = Fabric::new();
    let heap = fabric.new_heap(0x100, 1 << 20).unwrap();
    let region = fabric.allocate(heap, 188, 1024).unwrap();
    let info = fabric.info(region).unwrap();
    assert_eq!(info, MemInfo { base: 0x400, size: 188 });
    assert_eq!(fabric.allocated_list(heap).unwrap(), &vec![info]);
    assert_eq!(
        fabric.free_list(heap).unwrap(),
        &vec![
            MemInfo { base: 0x100, size: 0x300 },
            MemInfo { base: 0x400 + 188, size: (1 << 20) + 0x100 - 0x400 - 188 },
        ]
    );
    fabric.release(region).unwrap();
    assert!(!fabric.is_live(region));
    assert!(fabric.allocated_list(heap).unwrap().is_empty());
    assert_eq!(fabric.free_list(heap).unwrap(), &vec![MemInfo { base: 0x100, size: 1 << 20 }]);
}

#[test]
fn allocator_starts_with_one_free_block() {
    let a = Allocator::new(16, 64).unwrap();
    assert_eq!(a.info(), MemInfo { base: 16, size: 64 });
    assert_eq!(a.free_list(), &vec![MemInfo { base: 16, size: 64 }]);
    assert!(a.allocated_list().is_empty());
    let empty = Allocator::new(16, 0).unwrap();
    assert!(empty.free_list().is_empty());
}

#[test]
fn allocator_span_must_fit_the_address_space() {
    assert!(matches!(Allocator::new(u64::MAX, 2), Err(Error::OutOfRange)));
    assert!(Allocator::new(u64::MAX - 1, 1).is_ok());
}

#[test]
fn allocate_rejects_bad_alignment_and_empty_requests() {
    let mut a = Allocator::new(0, 4096).unwrap();
    assert_eq!(a.allocate(8, 3), Err(Error::InvalidAlign));
    assert_eq!(a.allocate(8, 0), Err(Error::InvalidAlign));
    assert_eq!(a.allocate(0, 3), Err(Error::InvalidAlign));
    assert_eq!(a.allocate(0, 8), Err(Error::OutOfSpace));
    assert_eq!(a.allocate(4097, 1), Err(Error::OutOfSpace));
    assert_eq!(a.free_list(), &vec![MemInfo { base: 0, size: 4096 }]);
    assert!(a.allocated_list().is_empty());
}

#[test]
fn allocate_takes_the_first_block_that_fits() {
    let mut a = Allocator::new(0, 1000).unwrap();
    let b0 = a.allocate(100, 1).unwrap();
    let b1 = a.allocate(100, 1).unwrap();
    let b2 = a.allocate(100, 1).unwrap();
    assert_eq!(b0, MemInfo { base: 0, size: 100 });
    assert_eq!(b1, MemInfo { base: 100, size: 100 });
    assert_eq!(b2, MemInfo { base: 200, size: 100 });
    a.free(b0);
    a.free(b2);
    assert_eq!(a.free_list(), &vec![MemInfo { base: 0, size: 100 }, MemInfo { base: 200, size: 800 }]);
    // 150 bytes do not fit the first free block, 50 bytes do
    assert_eq!(a.allocate(150, 1), Ok(MemInfo { base: 200, size: 150 }));
    assert_eq!(a.allocate(50, 1), Ok(MemInfo { base: 0, size: 50 }));
    assert_eq!(
        a.allocated_list(),
        &vec![
            MemInfo { base: 0, size: 50 },
            MemInfo { base: 100, size: 100 },
            MemInfo { base: 200, size: 150 },
        ]
    );
    assert_eq!(a.free_list(), &vec![MemInfo { base: 50, size: 50 }, MemInfo { base: 350, size: 650 }]);
}

#[test]
fn allocate_aligns_inside_the_block() {
    let mut a = Allocator::new(10, 100).unwrap();
    assert_eq!(a.allocate(16, 32), Ok(MemInfo { base: 32, size: 16 }));
    assert_eq!(a.free_list(), &vec![MemInfo { base: 10, size: 22 }, MemInfo { base: 48, size: 62 }]);
    // the block before the granted one is too small once aligned
    assert_eq!(a.allocate(8, 16), Ok(MemInfo { base: 16, size: 8 }));
    assert_eq!(a.allocate(64, 64), Err(Error::OutOfSpace));
}

#[test]
fn free_merges_with_both_neighbours() {
    let mut a = Allocator::new(0, 300).unwrap();
    let b0 = a.allocate(100, 1).unwrap();
    let b1 = a.allocate(100, 1).unwrap();
    let b2 = a.allocate(100, 1).unwrap();
    assert!(a.free_list().is_empty());
    a.free(b0);
    a.free(b2);
    assert_eq!(a.free_list(), &vec![b0, b2]);
    assert!(a.is_allocated(b1));
    assert!(!a.is_allocated(b0));
    a.free(b1);
    assert_eq!(a.free_list(), &vec![MemInfo { base: 0, size: 300 }]);
    assert!(a.allocated_list().is_empty());
}

#[test]
fn free_merges_with_one_neighbour_only() {
    let mut a = Allocator::new(0, 400).unwrap();
    let b0 = a.allocate(100, 1).unwrap();
    let b1 = a.allocate(100, 1).unwrap();
    let b2 = a.allocate(100, 1).unwrap();
    a.free(b1);
    assert_eq!(a.free_list(), &vec![b1, MemInfo { base: 300, size: 100 }]);
    a.free(b2);
    assert_eq!(a.free_list(), &vec![MemInfo { base: 100, size: 300 }]);
    a.free(b0);
    assert_eq!(a.free_list(), &vec![MemInfo { base: 0, size: 400 }]);
}

#[test]
fn sizes_always_add_up_to_the_span_and_free_blocks_never_touch() {
    let mut a = Allocator::new(0x40, 0x1000).unwrap();
    let mut held: Vec<MemInfo> = Vec::new();
    let sizes = [24u64, 100, 7, 512, 64, 3, 900, 33, 128, 1];
    let aligns = [1u64, 8, 2, 256, 64, 1, 4, 16, 128, 1];
    for round in 0..40usize {
        let k = round % sizes.len();
        if round % 3 == 2 && !held.is_empty() {
            let victim = held.remove((round * 7) % held.len());
            a.free(victim);
        } else if let Ok(b) = a.allocate(sizes[k], aligns[k]) {
            assert_eq!(b.size, sizes[k]);
            assert_eq!(b.base % aligns[k], 0);
            held.push(b);
        }
        assert_eq!(total(a.free_list()) + total(a.allocated_list()), 0x1000);
        for w in a.free_list().windows(2) {
            assert!(w[0].base + w[0].size < w[1].base);
        }
        for w in a.allocated_list().windows(2) {
            assert!(w[0].base + w[0].size <= w[1].base);
        }
        for f in a.free_list() {
            for g in a.allocated_list() {
                assert!(f.base + f.size <= g.base || g.base + g.size <= f.base);
            }
        }
    }
}
