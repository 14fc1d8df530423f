#![allow(non_snake_case)]

use layeredfs::color::Color;

#[test]
fn color_test() {
    let color = Color { red: 0xFF, green: 0xAB, blue: 0xCD, alpha: 0xEF };
    let colorNum: u32 = u32::from(color);

    assert_eq!(0xFFABCDEF, colorNum, "Checking if `Color -> u32` works");
    assert_eq!(color, Color::from(colorNum), "Checking if `u32 -> Color` works");
}

#[test]
fn color_components() {
    let color = Color { red: 1, green: 2, blue: 3, alpha: 4 };
    assert_eq!(color.component(0), 1);
    assert_eq!(color.component(1), 2);
    assert_eq!(color.component(2), 3);
    assert_eq!(color.component(3), 4);
}
