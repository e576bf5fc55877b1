use terminus_spaceport::access::IoAccess;
use terminus_spaceport::devices::armory::display::{Fb, Rect, SimpleFb};
use terminus_spaceport::devices::PixelFormat;

#[test]
fn framebuffer_geometry() {
    let fb = Fb::new(640, 480, PixelFormat::RGB565);
    assert_eq!(fb.width(), 640);
    assert_eq!(fb.height(), 480);
    assert_eq!(fb.stride(), 1280);
    assert_eq!(fb.pixel_format(), &PixelFormat::RGB565);
    assert_eq!(fb.data().len(), 640 * 480 * 2);
    assert_eq!(fb.size(), 640 * 480 * 2);
    let odd = Fb::new(10, 10, PixelFormat::RGB888);
    assert_eq!(odd.data().len(), 400);
    assert_eq!(odd.size(), 4096);
    assert_eq!(PixelFormat::RGB888.size(), 4);
    assert_eq!(PixelFormat::RGB565.size(), 2);
    let none = Fb::new(0, 10, PixelFormat::RGB888);
    assert_eq!(none.size(), 0);
}

#[test]
fn a_clean_framebuffer_draws_nothing() {
    let mut fb = Fb::new(640, 480, PixelFormat::RGB565);
    assert!(fb.refresh().is_empty());
}

#[test]
fn dirty_pages_become_rows() {
    // a row is 1280 bytes, a page 4096
    let mut fb = Fb::new(640, 480, PixelFormat::RGB565);
    fb.set_dirty(0);
    assert_eq!(fb.refresh(), vec![Rect { x: 0, y: 0, w: 640, h: 4 }]);
    assert!(fb.refresh().is_empty());
    // page 10 holds bytes 40960..45056: rows 32 to 35
    fb.set_dirty(40960 + 17);
    assert_eq!(fb.refresh(), vec![Rect { x: 0, y: 32, w: 640, h: 4 }]);
    // the last page ends with the display
    fb.set_dirty(640 * 480 * 2 - 1);
    assert_eq!(fb.refresh(), vec![Rect { x: 0, y: 476, w: 640, h: 4 }]);
    // outside the framebuffer
    fb.set_dirty(640 * 480 * 2);
    assert!(fb.refresh().is_empty());
}

#[test]
fn near_rows_merge_and_far_rows_do_not() {
    let mut fb = Fb::new(640, 480, PixelFormat::RGB565);
    // pages 0 and 1 touch; page 3 begins at row 9, within three rows of row 7
    fb.set_dirty(0);
    fb.set_dirty(4096);
    fb.set_dirty(3 * 4096);
    // page 20 begins at row 64
    fb.set_dirty(20 * 4096);
    assert_eq!(
        fb.refresh(),
        vec![Rect { x: 0, y: 0, w: 640, h: 13 }, Rect { x: 0, y: 64, w: 640, h: 4 }]
    );
    // page 5 holds rows 16 to 19, page 7 begins at row 22, three rows after row 19's end
    fb.set_dirty(5 * 4096);
    fb.set_dirty(7 * 4096);
    assert_eq!(fb.refresh(), vec![Rect { x: 0, y: 16, w: 640, h: 10 }]);
    // page 8 begins at row 25, more than three rows after
    fb.set_dirty(5 * 4096);
    fb.set_dirty(8 * 4096);
    assert_eq!(
        fb.refresh(),
        vec![Rect { x: 0, y: 16, w: 640, h: 4 }, Rect { x: 0, y: 25, w: 640, h: 4 }]
    );
}

#[test]
fn writes_through_the_device_mark_the_first_page() {
    let mut dev = SimpleFb::new(Fb::new(64, 64, PixelFormat::RGB565));
    assert_eq!(dev.write(4090, &[1, 2, 3, 4, 5, 6, 7, 8]), Ok(8));
    let mut back = vec![0u8; 8];
    assert_eq!(dev.read(4090, &mut back), Ok(8));
    assert_eq!(back, vec![1, 2, 3, 4, 5, 6, 7, 8]);
    assert_eq!(&dev.fb.data()[4089..4099], &[0, 1, 2, 3, 4, 5, 6, 7, 8, 0]);
    // a row is 128 bytes: page 0 holds rows 0 to 31
    assert_eq!(dev.fb.refresh(), vec![Rect { x: 0, y: 0, w: 64, h: 32 }]);
    assert!(dev.write(8190, &[1, 2, 3]).is_err());
    assert!(dev.read(8190, &mut back).is_err());
    assert!(dev.fb.refresh().is_empty());
    assert_eq!(dev.write(8191, &[9]), Ok(1));
    assert_eq!(dev.fb.refresh(), vec![Rect { x: 0, y: 32, w: 64, h: 32 }]);
}
