// The framebuffer, the pixel-offset arithmetic, the noise generator, and
// the classification enums.

use equart::RelaxedBuffer;
use equart::fixel::Mood;
use equart::fixel::RootType;
use equart::pixel_offset;
use equart::rand_draw::RandDraw;

#[test]
fn buffer_starts_filled_with_init_value() {
    let buf = RelaxedBuffer::new(16, 0xAABBCCDD);
    assert_eq!(buf.get(0), 0xAABBCCDD);
    assert_eq!(buf.get(15), 0xAABBCCDD);
}

#[test]
fn buffer_set_then_get() {
    let mut buf = RelaxedBuffer::new(8, 0);
    buf.set(3, 77);
    assert_eq!(buf.get(3), 77);
    assert_eq!(buf.get(2), 0);
    assert_eq!(buf.get(4), 0);
}

#[test]
fn buffer_fill_overwrites_everything() {
    let mut buf = RelaxedBuffer::new(5, 1);
    buf.set(2, 9);
    buf.fill(42);
    for i in 0..5 {
        assert_eq!(buf.get(i), 42);
    }
}

#[test]
fn pixel_offset_flips_y() {
    // A 10 by 5 screen: (0, 0) is the lower-left corner, which lives in
    // the last row of the buffer.
    assert_eq!(pixel_offset(0, 0, 10, 5), 40);
    assert_eq!(pixel_offset(9, 4, 10, 5), 9);
    assert_eq!(pixel_offset(3, 2, 10, 5), 23);
}

#[test]
fn pixel_offset_wraps_coordinates() {
    assert_eq!(pixel_offset(12, 7, 10, 5), 22);
    assert_eq!(pixel_offset(10, 5, 10, 5), 40);
}

#[test]
fn rand_draw_first_pixel_matches_xorshift() {
    let mut f: u64 = 0xFEFABABE;
    f ^= f << 13;
    f ^= f >> 17;
    f ^= f << 5;
    let rnd = (f >> 56) as u8;

    // Worker 0 draws in red: green and blue are masked away.
    let mut draw = RandDraw::new(0, 4, 800, 600);
    assert_eq!(draw.get_pixel(0, 0), (rnd, 0, 0, rnd));
}

#[test]
fn rand_draw_color_cycles_with_worker_index() {
    // Worker 2 draws in cyan; the red channel is masked away.
    let mut draw = RandDraw::new(2, 4, 800, 600);
    let (r, _g, _b, a) = draw.get_pixel(0, 0);
    assert_eq!(r, 0);
    let mut f: u64 = 0xFEFABABE;
    f ^= f << 13;
    f ^= f >> 17;
    f ^= f << 5;
    assert_eq!(a, (f >> 56) as u8);

    // Worker 7 wraps around to worker 0's color table entry.
    let mut draw0 = RandDraw::new(0, 8, 800, 600);
    let mut draw7 = RandDraw::new(7, 8, 800, 600);
    assert_eq!(draw0.get_pixel(0, 0), draw7.get_pixel(0, 0));
}

#[test]
fn rand_draw_stream_advances() {
    let mut draw = RandDraw::new(6, 7, 100, 100);
    let first = draw.get_pixel(0, 0);
    let second = draw.get_pixel(1, 0);
    assert_ne!(first.3, second.3);
}

#[test]
fn classification_enums_compare() {
    assert_eq!(RootType::Root, RootType::Root);
    assert_ne!(RootType::NoRoot, RootType::OutOfDomain);
    assert_eq!(Mood::NoData, Mood::NoData);
    assert_ne!(Mood::Positive, Mood::Negative);
}
