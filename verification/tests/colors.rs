use image_tree::color::Color;
use image_tree::util::{color_avg, color_dist2};

fn rgba(r: u8, g: u8, b: u8, a: u8) -> Color {
    Color { r, g, b, a }
}

#[test]
fn average_of_nothing_is_none() {
    assert_eq!(color_avg(&[]), None);
}

#[test]
fn average_of_one_color_is_that_color() {
    let c = rgba(12, 0, 255, 7);
    assert_eq!(color_avg(&[c]), Some(c));
}

#[test]
fn average_rounds_each_channel_down() {
    let colors = [rgba(1, 2, 3, 4), rgba(2, 2, 4, 255), rgba(2, 3, 5, 0)];
    // totals 5, 7, 12, 259 over three colors
    assert_eq!(color_avg(&colors), Some(rgba(1, 2, 4, 86)));
}

#[test]
fn average_does_not_depend_on_order() {
    let a = rgba(10, 20, 30, 40);
    let b = rgba(200, 0, 17, 255);
    let c = rgba(3, 3, 3, 3);
    let d = rgba(255, 255, 255, 255);
    let expected = color_avg(&[a, b, c, d]);
    assert_eq!(expected, Some(rgba(117, 69, 76, 138)));
    assert_eq!(color_avg(&[d, c, b, a]), expected);
    assert_eq!(color_avg(&[b, d, a, c]), expected);
    assert_eq!(color_avg(&[c, a, d, b]), expected);
}

#[test]
fn average_of_many_bright_colors_does_not_overflow() {
    let colors = vec![rgba(255, 255, 255, 255); 100_000];
    assert_eq!(color_avg(&colors), Some(rgba(255, 255, 255, 255)));
}

#[test]
fn distance_to_itself_is_zero() {
    let c = rgba(9, 99, 199, 255);
    assert_eq!(color_dist2(c, c), 0);
}

#[test]
fn distance_is_symmetric() {
    let a = rgba(0, 10, 250, 3);
    let b = rgba(255, 7, 1, 3);
    assert_eq!(color_dist2(a, b), color_dist2(b, a));
}

#[test]
fn distance_adds_squared_channel_differences() {
    let a = rgba(1, 2, 3, 4);
    let b = rgba(4, 0, 3, 14);
    // 9 + 4 + 0 + 100
    assert_eq!(color_dist2(a, b), 113);
}

#[test]
fn distance_is_zero_only_between_equal_colors() {
    let a = rgba(1, 2, 3, 4);
    assert_ne!(color_dist2(a, rgba(1, 2, 3, 5)), 0);
    assert_ne!(color_dist2(a, rgba(0, 2, 3, 4)), 0);
}

#[test]
fn largest_distance() {
    assert_eq!(color_dist2(rgba(0, 0, 0, 0), rgba(255, 255, 255, 255)), 260100);
}
