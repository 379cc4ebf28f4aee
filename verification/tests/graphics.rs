use stupidalloc::graphics::apply_click;
use stupidalloc::graphics::bits_as_pixels;
use stupidalloc::graphics::click_target;
use stupidalloc::graphics::render_buffer;
use stupidalloc::graphics::window_dimensions;
use stupidalloc::graphics::window_step;
use stupidalloc::graphics::Message;
use stupidalloc::graphics::WindowStep;

const WHITE: u32 = 0x00FFFFFF;
const BLACK: u32 = 0x00000000;

#[test]
fn pixels_show_bits_most_significant_first() {
    assert_eq!(
        bits_as_pixels(0b1000_0001),
        vec![WHITE, BLACK, BLACK, BLACK, BLACK, BLACK, BLACK, WHITE]
    );
    assert_eq!(bits_as_pixels(0x00), vec![BLACK; 8]);
    assert_eq!(bits_as_pixels(0xFF), vec![WHITE; 8]);
    assert_eq!(
        bits_as_pixels(0b0100_0000),
        vec![BLACK, WHITE, BLACK, BLACK, BLACK, BLACK, BLACK, BLACK]
    );
}

#[test]
fn buffer_renders_every_byte() {
    let buffer = render_buffer(&[0x80, 0x01]);
    assert_eq!(buffer.len(), 16);
    assert_eq!(buffer[0], WHITE);
    for t in 1..15 {
        assert_eq!(buffer[t], BLACK);
    }
    assert_eq!(buffer[15], WHITE);
    assert_eq!(render_buffer(&[]), Vec::<u32>::new());
}

#[test]
fn dimensions_count_bits_per_row() {
    assert_eq!(window_dimensions(64, 8), (64, 8));
    assert_eq!(window_dimensions(7, 2), (16, 3));
}

#[test]
fn clicks_land_on_the_right_bit() {
    // Pixel column 13 is bit 5 of byte 1; row 2 with 4 bytes per row.
    assert_eq!(click_target(13, 2, 4), (9, 0b0000_0100));
    assert_eq!(click_target(0, 0, 8), (0, 0b1000_0000));
    assert_eq!(click_target(7, 0, 8), (0, 0b0000_0001));
}

#[test]
fn clicks_set_and_clear_bits() {
    assert_eq!(apply_click(0b1000_0000, 0b0000_0100, true), 0b1000_0100);
    assert_eq!(apply_click(0b1000_0100, 0b0000_0100, false), 0b1000_0000);
    assert_eq!(apply_click(0xFF, 0x10, false), 0xEF);
}

#[test]
fn event_loop_decisions() {
    assert_eq!(window_step(false, None, false, 8), WindowStep::Stop);
    assert_eq!(window_step(true, Some(Message::Free), false, 8), WindowStep::Stop);
    assert_eq!(window_step(true, None, true, 8), WindowStep::Stop);
    assert_eq!(window_step(true, None, false, 8), WindowStep::Keep);
    assert_eq!(
        window_step(true, Some(Message::Grow), false, 8),
        WindowStep::Rebuild { columns: 8 }
    );
    assert_eq!(
        window_step(true, Some(Message::Resize { columns: 2 }), false, 8),
        WindowStep::Rebuild { columns: 2 }
    );
}
