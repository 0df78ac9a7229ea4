use wealthsim::render::{to_screen, wealth_color};

#[test]
fn colors_span_the_gradient() {
    assert_eq!(wealth_color(0, 0, 100), 0);
    assert_eq!(wealth_color(50, 0, 100), 127);
    assert_eq!(wealth_color(100, 0, 100), 255);
    assert_eq!(wealth_color(-5, 0, 100), 0);
    assert_eq!(wealth_color(250, 0, 100), 255);
    assert_eq!(wealth_color(-50, -100, 100), 63);
}

#[test]
fn screen_mapping_is_linear() {
    assert_eq!(to_screen(500, 1000, 800), 400);
    assert_eq!(to_screen(0, 1000, 800), 0);
    assert_eq!(to_screen(1000, 1000, 800), 800);
    assert_eq!(to_screen(333, 1000, 100), 33);
}
