use healer::allocator::Allocator;

#[test]
fn allocator_alloc() {
    let mut allocator = Allocator::new(1024);
    let addr = allocator.allocate(127, 1);
    assert_eq!(addr, 0);
    let expected_free_block_addr = 128;
    let expected_free_block_size = 1024 - 128;
    assert_eq!(
        allocator.free_blocks(),
        &vec![(expected_free_block_addr, expected_free_block_size)]
    );

    let addr = allocator.allocate(32, 128);
    assert_eq!(addr, 128);
    let expected_free_block_addr = expected_free_block_addr + 128;
    let expected_free_block_size = expected_free_block_size - 128;
    assert_eq!(
        allocator.free_blocks(),
        &vec![(expected_free_block_addr, expected_free_block_size)]
    );

    let addr = allocator.allocate(1024 - 256, 128);
    assert_eq!(addr, 256);
    assert_eq!(allocator.free_blocks(), &vec![(0, 1024)])
}

#[test]
fn allocator_note_alloc() {
    let mut allocator = Allocator::new(1024);
    assert!(!allocator.note_alloc(1024, 128));

    assert!(allocator.note_alloc(512, 128));
    assert_eq!(
        allocator.free_blocks(),
        &vec![(0, 512), (512 + 128, 512 - 128)]
    );
    assert!(!allocator.note_alloc(512, 128));
    assert!(!allocator.note_alloc(1024, 128));
    assert!(allocator.note_alloc(0, 128));
}

#[test]
fn allocator_rounds_size_up() {
    let allocator = Allocator::new(1000);
    assert_eq!(allocator.size(), 1024);
    assert_eq!(allocator.free_blocks(), &vec![(0, 1024)]);
}

#[test]
fn allocator_restore_frees_everything() {
    let mut allocator = Allocator::new(1024);
    allocator.allocate(64, 8);
    allocator.allocate(200, 64);
    allocator.restore();
    assert_eq!(allocator.free_blocks(), &vec![(0, 1024)]);
}
