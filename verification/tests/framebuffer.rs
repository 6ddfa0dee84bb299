use soft_render::color::{clamp_to_byte, pack_rgb, unpack_rgb};
use soft_render::framebuffer::{Fragment, FrameBuffer, DEPTH_FAR};

fn frag(x: usize, y: usize, depth: u32, color: u32) -> Fragment {
    Fragment { x, y, depth, color }
}

#[test]
fn new_frame_is_black_and_far() {
    let fb = FrameBuffer::new(3, 2);
    assert_eq!(fb.width(), 3);
    assert_eq!(fb.height(), 2);
    assert_eq!(fb.colors(), &vec![0u32; 6]);
    assert_eq!(fb.depths(), &vec![DEPTH_FAR; 6]);
}

#[test]
fn empty_frame_has_no_pixels() {
    let mut fb = FrameBuffer::new(0, 4);
    assert!(fb.colors().is_empty());
    assert!(!fb.plot(frag(0, 0, 9, 9)));
    assert!(fb.colors().is_empty());
}

#[test]
fn clear_sets_every_pixel_and_resets_depth() {
    let mut fb = FrameBuffer::new(2, 2);
    assert!(fb.plot(frag(1, 1, 40, 0x112233)));
    fb.clear(0xAAAAAA);
    assert_eq!(fb.colors(), &vec![0xAAAAAAu32; 4]);
    assert_eq!(fb.depths(), &vec![0u32; 4]);
}

#[test]
fn plot_writes_the_addressed_pixel_only() {
    let mut fb = FrameBuffer::new(3, 2);
    assert!(fb.plot(frag(1, 1, 5, 7)));
    assert_eq!(fb.colors(), &vec![0, 0, 0, 0, 7, 0]);
    assert_eq!(fb.depths(), &vec![0, 0, 0, 0, 5, 0]);
}

#[test]
fn plot_rejects_equal_and_farther_depth() {
    let mut fb = FrameBuffer::new(2, 1);
    assert!(fb.plot(frag(0, 0, 5, 1)));
    assert!(!fb.plot(frag(0, 0, 5, 2)));
    assert!(!fb.plot(frag(0, 0, 4, 3)));
    assert_eq!(fb.colors(), &vec![1, 0]);
    assert!(fb.plot(frag(0, 0, 6, 4)));
    assert_eq!(fb.colors(), &vec![4, 0]);
    assert_eq!(fb.depths(), &vec![6, 0]);
}

#[test]
fn depth_zero_never_passes() {
    let mut fb = FrameBuffer::new(1, 1);
    assert!(!fb.is_nearer(0, 0, 0));
    assert!(!fb.plot(frag(0, 0, 0, 9)));
    assert_eq!(fb.colors(), &vec![0]);
}

#[test]
fn plotting_twice_changes_nothing_the_second_time() {
    let mut fb = FrameBuffer::new(4, 4);
    let frags = [frag(0, 0, 3, 10), frag(1, 2, 8, 11), frag(1, 2, 9, 12), frag(3, 3, 1, 13)];
    for f in frags {
        fb.plot(f);
    }
    let colors = fb.colors().clone();
    let depths = fb.depths().clone();
    for f in frags {
        assert!(!fb.plot(f));
    }
    assert_eq!(fb.colors(), &colors);
    assert_eq!(fb.depths(), &depths);
}

#[test]
fn nearer_fragment_wins_in_either_order() {
    let near = frag(2, 1, 900, 0xFF0000);
    let far = frag(2, 1, 300, 0x0000FF);
    let elsewhere = frag(0, 0, 5, 0x00FF00);

    let mut first = FrameBuffer::new(3, 2);
    first.plot(near);
    first.plot(elsewhere);
    first.plot(far);

    let mut second = FrameBuffer::new(3, 2);
    second.plot(far);
    second.plot(near);
    second.plot(elsewhere);

    assert_eq!(first.colors(), second.colors());
    assert_eq!(first.depths(), second.depths());
    assert_eq!(first.colors()[1 * 3 + 2], 0xFF0000);
    assert_eq!(first.depths()[1 * 3 + 2], 900);
}

#[test]
fn fragments_outside_the_frame_are_ignored() {
    let mut fb = FrameBuffer::new(3, 2);
    fb.clear(0x101010);
    assert!(!fb.plot(frag(3, 0, 50, 1)));
    assert!(!fb.plot(frag(0, 2, 50, 1)));
    assert!(!fb.plot(frag(usize::MAX, usize::MAX, 50, 1)));
    assert!(!fb.is_nearer(3, 1, 50));
    assert_eq!(fb.colors(), &vec![0x101010u32; 6]);
    assert_eq!(fb.depths(), &vec![0u32; 6]);
}

#[test]
fn is_nearer_compares_strictly() {
    let mut fb = FrameBuffer::new(2, 2);
    fb.plot(frag(1, 0, 10, 1));
    assert!(fb.is_nearer(1, 0, 11));
    assert!(!fb.is_nearer(1, 0, 10));
    assert!(!fb.is_nearer(1, 0, 9));
    assert!(fb.is_nearer(0, 0, 1));
}

#[test]
fn store_writes_colour_and_depth() {
    let mut fb = FrameBuffer::new(2, 2);
    let f = frag(0, 1, 77, 0xABCDEF);
    assert!(fb.is_nearer(f.x, f.y, f.depth));
    fb.store(f);
    assert_eq!(fb.colors(), &vec![0, 0, 0xABCDEF, 0]);
    assert_eq!(fb.depths(), &vec![0, 0, 77, 0]);
}

#[test]
fn present_turns_the_frame_upside_down() {
    let mut fb = FrameBuffer::new(2, 2);
    fb.plot(frag(0, 0, 1, 0x010203));
    fb.plot(frag(1, 0, 1, 0x040506));
    fb.plot(frag(0, 1, 1, 0x070809));
    fb.plot(frag(1, 1, 1, 0x0A0B0C));
    let mut buffer = vec![0xEEu8; 22];
    fb.present(&mut buffer, 10);
    assert_eq!(
        buffer,
        vec![
            // top row of the display: row 1 of the frame
            0, 0x09, 0x08, 0x07, 0, 0x0C, 0x0B, 0x0A, 0xEE, 0xEE,
            // bottom row of the display: row 0 of the frame
            0, 0x03, 0x02, 0x01, 0, 0x06, 0x05, 0x04, 0xEE, 0xEE,
            // behind the last row
            0xEE, 0xEE,
        ]
    );
}

#[test]
fn present_with_tight_rows() {
    let mut fb = FrameBuffer::new(1, 2);
    fb.plot(frag(0, 0, 1, 0xFF8040));
    let mut buffer = vec![9u8; 8];
    fb.present(&mut buffer, 4);
    assert_eq!(buffer, vec![0, 0, 0, 0, 0, 0x40, 0x80, 0xFF]);
}

#[test]
fn pack_clamps_each_channel() {
    assert_eq!(pack_rgb(0, 0, 0), 0);
    assert_eq!(pack_rgb(255, 255, 255), 0xFFFFFF);
    assert_eq!(pack_rgb(300, -5, 16), 0xFF0010);
    assert_eq!(pack_rgb(1, 2, 3), 0x010203);
    assert_eq!(pack_rgb(i32::MAX, i32::MIN, 256), 0xFF00FF);
}

#[test]
fn clamp_to_byte_cuts_both_ends() {
    assert_eq!(clamp_to_byte(-1), 0);
    assert_eq!(clamp_to_byte(0), 0);
    assert_eq!(clamp_to_byte(128), 128);
    assert_eq!(clamp_to_byte(255), 255);
    assert_eq!(clamp_to_byte(256), 255);
}

#[test]
fn unpack_gives_back_packed_channels() {
    assert_eq!(unpack_rgb(0x123456), (0x12, 0x34, 0x56));
    assert_eq!(unpack_rgb(0xFF123456), (0x12, 0x34, 0x56));
    assert_eq!(unpack_rgb(pack_rgb(999, 17, -3)), (255, 17, 0));
}
