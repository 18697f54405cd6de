use studio_core::units::{format_sixteenths, format_square_feet};

#[test]
fn lengths_in_sixteenths_read_as_feet_and_inches() {
    assert_eq!(format_sixteenths(false, 0), "0'-0\"");
    assert_eq!(format_sixteenths(true, 0), "0'-0\"");
    assert_eq!(format_sixteenths(false, 10 * 192), "10'-0\"");
    assert_eq!(format_sixteenths(false, 12 * 192 + 6 * 16 + 8), "12'-6 1/2\"");
    assert_eq!(format_sixteenths(false, 5 * 16 + 9), "0'-5 9/16\"");
    assert_eq!(format_sixteenths(false, 3 * 16 + 12), "0'-3 3/4\"");
    assert_eq!(format_sixteenths(false, 192), "1'-0\"");
    assert_eq!(format_sixteenths(true, 192), "-1'-0\"");
}

#[test]
fn areas_group_thousands() {
    assert_eq!(format_square_feet(1200), "1,200 SF");
    assert_eq!(format_square_feet(85), "85 SF");
    assert_eq!(format_square_feet(0), "0 SF");
    assert_eq!(format_square_feet(100), "100 SF");
    assert_eq!(format_square_feet(-1_234_567), "-1,234,567 SF");
    assert_eq!(format_square_feet(123_456), "123,456 SF");
}
