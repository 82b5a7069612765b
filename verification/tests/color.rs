use seventeen::color::Color;

#[test]
fn argb_conversion() {
    assert_eq!(
        Color::from_argb(4292032130),
        Color {
            r: 211,
            g: 54,
            b: 130,
        }
    );
}

#[test]
fn display() {
    assert_eq!(Color::from_argb(4292032130).to_string(), "#d33682");
}

#[test]
fn black_renders_with_leading_zeroes() {
    assert_eq!(Color { r: 0, g: 0, b: 0 }.to_string(), "#000000");
}
