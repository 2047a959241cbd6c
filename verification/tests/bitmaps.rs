use taiga::bitmap::Bitmap as ByteBitmap;
use taiga::data_types::Bitmap as SizeBitmap;
use taiga::frame_bitmap::Bitmap as FrameBitmap;
use taiga::byte_data_types::Bitmap as InclusiveBitmap;

#[test]
fn byte_bitmap_set_and_read() {
    let mut b = ByteBitmap::new(10, 0x1000);
    assert_eq!(b.size, 10);
    assert_eq!(b.addr, 0x1000);
    assert_eq!(b.bytes.len(), 2);
    assert!(!b.index(3));
    assert!(b.set(3, true));
    assert!(b.index(3));
    assert_eq!(b.bytes[0], 0b0001_0000);
    // a false value flips the bit
    assert!(b.set(3, false));
    assert!(!b.index(3));
    assert!(b.set(3, false));
    assert!(b.index(3));
    // index == size is still written, past it is refused
    assert!(b.set(10, true));
    assert!(b.index(10));
    assert!(!b.set(11, true));
    assert!(!b.index(11));
}

#[test]
fn frame_bitmap_get_set() {
    let mut b = FrameBitmap::new(9, 0);
    assert_eq!(b.bytes.len(), 2);
    assert_eq!(b.get(0), Some(false));
    assert_eq!(b.get(9), None);
    assert!(b.set(8, true));
    assert_eq!(b.index(8), Some(true));
    assert_eq!(b.bytes[1], 0b1000_0000);
    assert!(b.set(8, false));
    assert_eq!(b.index(8), Some(false));
    assert!(!b.set(9, true));
    assert!(b.set(0, true));
    assert_eq!(b.to_string(), "100000000");
}

#[test]
fn size_bitmap_flips_on_false() {
    let mut b = SizeBitmap::new(8, 0x2000);
    b.set(7, true);
    assert!(b.index(7));
    assert_eq!(b.bytes[0], 0b0000_0001);
    b.set(7, false);
    assert!(!b.index(7));
    b.set(6, false);
    assert!(b.index(6));
    // indices from size on are ignored
    b.set(8, true);
    assert!(!b.index(8));
}

#[test]
fn inclusive_bitmap_bounds() {
    let mut b = InclusiveBitmap::new(2, 0);
    assert_eq!(b.bytes.len(), 3);
    assert!(b.set(16, true));
    assert!(b.index(16));
    assert!(!b.set(17, true));
    assert!(!b.index(17));
    assert!(!b.index(1000));
    assert!(b.set(16, false));
    assert!(!b.index(16));
}
