use embedded_text::geometry::Point;
use embedded_text::geometry::Rectangle;
use embedded_text::geometry::Size;

#[test]
fn point_moves_right_and_down() {
    assert_eq!(Point::new(3, 4).right(10), Point::new(13, 4));
    assert_eq!(Point::new(3, 4).down(10), Point::new(3, 14));
    assert_eq!(Point::new(-20, -5).right(20), Point::new(0, -5));
    assert_eq!(Point::zero().right(0), Point::new(0, 0));
}

#[test]
fn large_steps_saturate() {
    assert_eq!(Point::new(0, 0).right(i32::MAX as u32), Point::new(i32::MAX, 0));
    assert_eq!(Point::new(0, 0).right(3_000_000_000), Point::new(i32::MAX, 0));
    assert_eq!(Point::new(0, 0).right(u32::MAX), Point::new(i32::MAX, 0));
    assert_eq!(Point::new(-10, 0).right(u32::MAX), Point::new(i32::MAX - 10, 0));
    assert_eq!(Point::new(10, 0).right(u32::MAX), Point::new(i32::MAX, 0));
    assert_eq!(Point::new(7, 1).down(u32::MAX), Point::new(7, i32::MAX));
    assert_eq!(Point::new(7, i32::MAX).down(1), Point::new(7, i32::MAX));
}

#[test]
fn rectangle_keeps_its_parts() {
    let r = Rectangle::new(Point::new(1, 2), Size::new(3, 4));
    assert_eq!(r.top_left, Point::new(1, 2));
    assert_eq!(r.size, Size { width: 3, height: 4 });
}
