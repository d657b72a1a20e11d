use blockwars::render::fill_rect;
use blockwars::render::clear_frame;

#[test]
fn fills_a_rectangle() {
    let mut buf: Vec<u32> = vec![9; 100];
    // Width 10: a 2 x 2 square at (3, 4).
    fill_rect(&mut buf, 10, 3, 4, 2, 2, 7);
    for i in 0..100 {
        let (x, y) = (i % 10, i / 10);
        let inside = (3..5).contains(&x) && (4..6).contains(&y);
        assert_eq!(buf[i], if inside { 7 } else { 9 }, "pixel {}", i);
    }
}

#[test]
fn clips_by_linear_index_only() {
    let mut buf: Vec<u32> = vec![0; 100];
    // A rectangle sticking out past the right edge wraps into the next
    // row, because clipping goes by linear index alone.
    fill_rect(&mut buf, 10, 8, 0, 4, 1, 5);
    assert_eq!(buf[8], 5);
    assert_eq!(buf[9], 5);
    assert_eq!(buf[10], 5, "spills onto the next row");
    assert_eq!(buf[11], 5);
    assert_eq!(buf[12], 0);
}

#[test]
fn skips_pixels_past_the_buffer() {
    let mut buf: Vec<u32> = vec![0; 100];
    // Rows below the last one fall outside the buffer and are skipped.
    fill_rect(&mut buf, 10, 0, 9, 1, 5, 3);
    assert_eq!(buf[90], 3);
    for i in 0..90 {
        assert_eq!(buf[i], 0);
    }
}

#[test]
fn clear_resets_every_pixel() {
    let mut buf: Vec<u32> = vec![4; 64];
    clear_frame(&mut buf);
    assert_eq!(buf, vec![0u32; 64]);
    assert_eq!(buf.len(), 64);
}
