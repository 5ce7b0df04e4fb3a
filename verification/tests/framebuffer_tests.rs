use game_of_life::board::Board;
use game_of_life::color::Color;
use game_of_life::framebuffer::FrameBuffer;
use game_of_life::life::render;

#[test]
fn new_framebuffer_is_black() {
    let fb = FrameBuffer::new(3, 2);
    assert_eq!(fb.width, 3);
    assert_eq!(fb.height, 2);
    for y in 0..2 {
        for x in 0..3 {
            assert_eq!(fb.pixel(x, y), Color::new(0, 0, 0));
        }
    }
}

#[test]
fn point_writes_the_current_color() {
    let mut fb = FrameBuffer::new(3, 3);
    fb.set_current_color(Color::new(10, 20, 30));
    fb.point(2, 1);
    for y in 0..3 {
        for x in 0..3 {
            if (x, y) == (2, 1) {
                assert_eq!(fb.pixel(x, y), Color::new(10, 20, 30));
            } else {
                assert_eq!(fb.pixel(x, y), Color::new(0, 0, 0));
            }
        }
    }
}

#[test]
fn point_out_of_bounds_is_ignored() {
    let mut fb = FrameBuffer::new(2, 2);
    fb.set_current_color(Color::new(255, 0, 0));
    fb.point(2, 0);
    fb.point(0, 2);
    fb.point(100, 100);
    for y in 0..2 {
        for x in 0..2 {
            assert_eq!(fb.pixel(x, y), Color::new(0, 0, 0));
        }
    }
}

#[test]
fn clear_fills_with_the_background_color() {
    let mut fb = FrameBuffer::new(2, 3);
    fb.set_current_color(Color::new(1, 2, 3));
    fb.point(0, 0);
    fb.point(1, 2);
    fb.set_background_color(Color::new(9, 8, 7));
    fb.clear();
    for y in 0..3 {
        for x in 0..2 {
            assert_eq!(fb.pixel(x, y), Color::new(9, 8, 7));
        }
    }
}

#[test]
fn packed_buffer_packs_every_pixel() {
    let mut fb = FrameBuffer::new(2, 2);
    fb.set_current_color(Color::new(0x12, 0x34, 0x56));
    fb.point(1, 0);
    fb.set_current_color(Color::new(255, 255, 255));
    fb.point(0, 1);
    let packed = fb.packed_buffer();
    assert_eq!(packed.len(), 4);
    assert_eq!(packed[0], 0x0000_0000);
    assert_eq!(packed[1], 0x0012_3456);
    assert_eq!(packed[2], 0x00FF_FFFF);
    assert_eq!(packed[3], 0x0000_0000);
}

#[test]
fn render_draws_live_cells_white_and_dead_cells_black() {
    let board = Board::from_coords(3, 2, &vec![(0usize, 1usize), (1, 2)]);
    let mut fb = FrameBuffer::new(3, 2);
    render(&mut fb, &board);
    for y in 0..2 {
        for x in 0..3 {
            let expected = if board.cell(x, y) {
                Color::new(255, 255, 255)
            } else {
                Color::new(0, 0, 0)
            };
            assert_eq!(fb.pixel(x, y), expected);
        }
    }
    let packed = fb.packed_buffer();
    assert_eq!(packed[1], 0x00FF_FFFF);
    assert_eq!(packed[5], 0x00FF_FFFF);
    assert_eq!(packed[0], 0x0000_0000);
}
