use skean_raytracer::ppm::{ppm_header, ppm_image, ppm_row, push_decimal, Rgb};

fn decimal(n: u64) -> String {
    let mut s = String::new();
    push_decimal(&mut s, n);
    s
}

#[test]
fn numerals() {
    assert_eq!(decimal(0), "0");
    assert_eq!(decimal(7), "7");
    assert_eq!(decimal(10), "10");
    assert_eq!(decimal(255), "255");
    assert_eq!(decimal(1234567890), "1234567890");
    assert_eq!(decimal(u64::MAX), "18446744073709551615");
}

#[test]
fn numerals_agree_with_the_standard_library() {
    for n in (0..2000u64).chain([99_999, 100_000, 100_001, u64::MAX - 1]) {
        assert_eq!(decimal(n), n.to_string());
    }
}

#[test]
fn numeral_is_appended() {
    let mut s = String::from("x=");
    push_decimal(&mut s, 42);
    assert_eq!(s, "x=42");
}

#[test]
fn pixel_is_three_numbers() {
    assert_eq!(Rgb { r: 0, g: 0, b: 0 }.format_color(), "0 0 0");
    assert_eq!(Rgb { r: 255, g: 128, b: 7 }.format_color(), "255 128 7");
}

#[test]
fn header_is_byte_exact() {
    assert_eq!(ppm_header(256, 144), "P3\n256 144\n255\n");
    assert_eq!(ppm_header(0, 0), "P3\n0 0\n255\n");
    assert_eq!(ppm_header(3, 2).as_bytes(), b"P3\n3 2\n255\n");
}

#[test]
fn row_has_a_space_after_each_pixel() {
    assert_eq!(ppm_row(&vec![]), "\n");
    assert_eq!(ppm_row(&vec![Rgb { r: 1, g: 2, b: 3 }]), "1 2 3 \n");
    assert_eq!(
        ppm_row(&vec![Rgb { r: 1, g: 2, b: 3 }, Rgb { r: 40, g: 50, b: 60 }]),
        "1 2 3 40 50 60 \n"
    );
}

#[test]
fn image_is_header_and_rows_from_the_top() {
    let rows = vec![
        vec![Rgb { r: 255, g: 0, b: 0 }, Rgb { r: 0, g: 255, b: 0 }],
        vec![Rgb { r: 0, g: 0, b: 255 }, Rgb { r: 9, g: 9, b: 9 }],
    ];
    assert_eq!(ppm_image(2, 2, &rows), "P3\n2 2\n255\n255 0 0 0 255 0 \n0 0 255 9 9 9 \n");
}

#[test]
fn image_dimensions_match_the_configuration() {
    let width = 5;
    let height = 4;
    let rows = vec![vec![Rgb { r: 10, g: 20, b: 30 }; width]; height];
    let text = ppm_image(width, height, &rows);
    let lines: Vec<&str> = text.lines().collect();
    assert_eq!(lines.len(), 3 + height);
    assert_eq!(lines[0], "P3");
    assert_eq!(lines[1], "5 4");
    assert_eq!(lines[2], "255");
    for line in &lines[3..] {
        assert_eq!(line.split_whitespace().count(), 3 * width);
    }
    assert!(text.starts_with("P3\n5 4\n255\n"));
    assert!(text.ends_with('\n'));
}

#[test]
fn image_without_rows_is_the_header() {
    assert_eq!(ppm_image(0, 0, &vec![]), "P3\n0 0\n255\n");
}
