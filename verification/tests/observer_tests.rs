use raytracer::color::Color;
use raytracer::frame::{Frame, FrameEntry};
use raytracer::observer::{generate_ray_grid, FrameStack, RayTarget};

fn red_frame() -> Frame {
    Frame::create_from_ray_trace(&vec![FrameEntry {
        x: 3,
        y: 4,
        color: Color::rgb(200, 0, 0),
    }])
}

#[test]
fn frame_stack_starts_with_accumulation_off() {
    let stack = FrameStack::new();
    assert!(!stack.accumulation_mode);
}

#[test]
fn get_next_frame_passes_through_while_accumulation_is_off() {
    let mut stack = FrameStack::new();
    let display = stack.get_next_frame(red_frame());
    assert_eq!(display.get_color(3, 4), Some(Color::rgb(200, 0, 0)));
    assert_eq!(display.get_color(0, 0), None);
}

#[test]
fn switch_accumulation_mode_toggles() {
    let mut stack = FrameStack::new();
    stack.switch_accumulation_mode();
    assert!(stack.accumulation_mode);
    stack.switch_accumulation_mode();
    assert!(!stack.accumulation_mode);
}

#[test]
fn accumulation_averages_the_rendered_frames() {
    let mut stack = FrameStack::new();
    stack.switch_accumulation_mode();
    let bright = Frame::create_from_ray_trace(&vec![FrameEntry {
        x: 0,
        y: 0,
        color: Color::rgb(100, 40, 0),
    }]);
    let dark = Frame::create_from_ray_trace(&vec![FrameEntry {
        x: 0,
        y: 0,
        color: Color::rgb(0, 41, 0),
    }]);
    let first = stack.get_next_frame(bright);
    assert_eq!(first.get_color(0, 0), Some(Color::rgb(100, 40, 0)));
    let second = stack.get_next_frame(dark);
    assert_eq!(second.get_color(0, 0), Some(Color::rgb(50, 40, 0)));
}

#[test]
fn rendering_the_same_frame_twice_displays_it_unchanged() {
    let mut stack = FrameStack::new();
    stack.switch_accumulation_mode();
    let first = stack.get_next_frame(red_frame());
    let second = stack.get_next_frame(red_frame());
    assert_eq!(first.get_color(3, 4), second.get_color(3, 4));
    assert_eq!(second.get_color(3, 4), Some(Color::rgb(200, 0, 0)));
}

#[test]
fn switching_accumulation_off_clears_the_stack() {
    let mut stack = FrameStack::new();
    stack.switch_accumulation_mode();
    let _ = stack.get_next_frame(red_frame());
    stack.switch_accumulation_mode();
    stack.switch_accumulation_mode();
    // If the earlier frame had survived, this average would mix it in.
    let blue = Frame::create_from_ray_trace(&vec![FrameEntry {
        x: 3,
        y: 4,
        color: Color::rgb(0, 0, 200),
    }]);
    let display = stack.get_next_frame(blue);
    assert_eq!(display.get_color(3, 4), Some(Color::rgb(0, 0, 200)));
}

#[test]
fn ray_grid_covers_the_bounds_row_major() {
    let grid = generate_ray_grid(-1, 1, 5, 8);
    assert_eq!(grid.len(), 6);
    let expected = [
        (-1, 5, 0, 0),
        (-1, 6, 0, 1),
        (-1, 7, 0, 2),
        (0, 5, 1, 0),
        (0, 6, 1, 1),
        (0, 7, 1, 2),
    ];
    for (k, (hor, ver, px, py)) in expected.iter().enumerate() {
        assert_eq!(
            grid[k],
            RayTarget {
                hor_offset: *hor,
                ver_offset: *ver,
                pixel_x: *px,
                pixel_y: *py,
            }
        );
    }
}

#[test]
fn ray_grid_of_empty_bounds_is_empty() {
    assert_eq!(generate_ray_grid(0, 0, -4, 4).len(), 0);
    assert_eq!(generate_ray_grid(-4, 4, 0, 0).len(), 0);
}
