use raytracer::color::Color;
use raytracer::frame::{Frame, FrameEntry, PixelAccumulator};

fn entry(x: i64, y: i64, r: u8, g: u8, b: u8) -> FrameEntry {
    FrameEntry {
        x,
        y,
        color: Color::rgb(r, g, b),
    }
}

#[test]
fn empty_frame_has_no_pixels() {
    let frame = Frame::new();
    assert_eq!(frame.get_color(0, 0), None);
    assert_eq!(frame.get_color(-3, 7), None);
}

#[test]
fn set_pixel_then_get_color() {
    let mut frame = Frame::new();
    frame.set_pixel(2, 5, Color::rgb(10, 20, 30));
    assert_eq!(frame.get_color(2, 5), Some(Color::rgb(10, 20, 30)));
    assert_eq!(frame.get_color(5, 2), None);
}

#[test]
fn set_pixel_overwrites() {
    let mut frame = Frame::new();
    frame.set_pixel(1, 1, Color::rgb(1, 2, 3));
    frame.set_pixel(1, 1, Color::rgb(4, 5, 6));
    assert_eq!(frame.get_color(1, 1), Some(Color::rgb(4, 5, 6)));
}

#[test]
fn create_from_ray_trace_keeps_each_pixel() {
    let traces = vec![entry(0, 0, 255, 0, 0), entry(1, 0, 0, 255, 0), entry(0, 1, 0, 0, 255)];
    let frame = Frame::create_from_ray_trace(&traces);
    assert_eq!(frame.get_color(0, 0), Some(Color::rgb(255, 0, 0)));
    assert_eq!(frame.get_color(1, 0), Some(Color::rgb(0, 255, 0)));
    assert_eq!(frame.get_color(0, 1), Some(Color::rgb(0, 0, 255)));
    assert_eq!(frame.get_color(1, 1), None);
}

#[test]
fn create_from_ray_trace_later_trace_wins() {
    let traces = vec![entry(4, 4, 255, 0, 0), entry(4, 4, 0, 255, 0)];
    let frame = Frame::create_from_ray_trace(&traces);
    assert_eq!(frame.get_color(4, 4), Some(Color::rgb(0, 255, 0)));
}

#[test]
fn pixel_accumulator_averages_channels() {
    let acc = PixelAccumulator {
        r: 509,
        g: 10,
        b: 0,
        a: 510,
        count: 2,
    };
    let c = acc.get_color();
    assert_eq!(c.r, 254);
    assert_eq!(c.g, 5);
    assert_eq!(c.b, 0);
    assert_eq!(c.a, 255);
}

#[test]
fn accumulate_frames_averages_shared_pixels() {
    let first = Frame::create_from_ray_trace(&vec![entry(0, 0, 100, 0, 50)]);
    let second = Frame::create_from_ray_trace(&vec![entry(0, 0, 200, 10, 51)]);
    let display = Frame::accumulate_frames(&vec![first, second]);
    // Channel sums 300, 10, 101 over two frames; division truncates.
    assert_eq!(display.get_color(0, 0), Some(Color::rgb(150, 5, 50)));
}

#[test]
fn accumulate_frames_keeps_pixels_missing_from_some_frames() {
    let first = Frame::create_from_ray_trace(&vec![entry(0, 0, 10, 10, 10)]);
    let second = Frame::create_from_ray_trace(&vec![entry(7, -3, 9, 8, 7)]);
    let display = Frame::accumulate_frames(&vec![first, second]);
    // Each pixel is averaged only over the frames that mapped it.
    assert_eq!(display.get_color(0, 0), Some(Color::rgb(10, 10, 10)));
    assert_eq!(display.get_color(7, -3), Some(Color::rgb(9, 8, 7)));
    assert_eq!(display.get_color(1, 1), None);
}

#[test]
fn accumulate_frames_of_identical_frames_reproduces_the_frame() {
    let traces = vec![entry(0, 0, 13, 77, 201), entry(5, 9, 255, 255, 255)];
    let first = Frame::create_from_ray_trace(&traces);
    let second = Frame::create_from_ray_trace(&traces);
    let display = Frame::accumulate_frames(&vec![first, second]);
    assert_eq!(display.get_color(0, 0), Some(Color::rgb(13, 77, 201)));
    assert_eq!(display.get_color(5, 9), Some(Color::rgb(255, 255, 255)));
    assert_eq!(display.get_color(1, 0), None);
}

#[test]
fn accumulate_frames_of_empty_stack_is_empty() {
    let display = Frame::accumulate_frames(&vec![]);
    assert_eq!(display.get_color(0, 0), None);
}
