use early_alloc::Block;

#[test]
fn new_block_is_empty() {
    let b: Block<0x1000> = Block::new(0x8000, 0x4000);
    assert_eq!(b.start, 0x8000);
    assert_eq!(b.size, 0x4000);
    assert_eq!(b.b_used, 0);
    assert_eq!(b.p_used, 0);
    assert_eq!(b.available_bytes(), 0x4000);
    assert_eq!(b.available_pages(), 4);
}

#[test]
fn block_byte_cursor_advances() {
    let mut b: Block<0x1000> = Block::new(0x8000, 0x4000);
    assert_eq!(b.alloc_bytes(0x20, 1), 0x8000);
    assert_eq!(b.alloc_bytes(0x20, 1), 0x8020);
    assert_eq!(b.available_bytes(), 0x4000 - 0x40);
}

#[test]
fn block_page_cursor_descends() {
    let mut b: Block<0x1000> = Block::new(0x8000, 0x4000);
    // A single subtraction from the current top: the first page is the
    // highest one, and each reservation shrinks availability by exactly
    // its page count.
    assert_eq!(b.alloc_pages(1, 1), 0xB000);
    assert_eq!(b.available_pages(), 3);
    assert_eq!(b.alloc_pages(2, 1), 0x9000);
    assert_eq!(b.available_pages(), 1);
}

#[test]
fn block_fit_checks() {
    let b: Block<0x1000> = Block::new(0x8000, 0x2000);
    assert!(b.fits_bytes(0x2000, 1));
    assert!(!b.fits_bytes(0x2001, 1));
    assert!(b.fits_pages(2, 1));
    assert!(!b.fits_pages(3, 1));
}
