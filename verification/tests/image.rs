use labkit::xpm2::ReadError;
use labkit::xpm2::Xpm2;

const TEST_XPM2: &str = r#"! XPM2
4 4 2 1
# c #000000
- c #ffffff
##--
##--
--##
--##"#;

#[test]
fn read_xpm2_test() {
    let xpm2 = Xpm2::read(TEST_XPM2).unwrap();

    assert_eq!(xpm2.colors.len(), 2);
    assert_eq!(xpm2.pixels.len(), 4);

    assert_eq!(xpm2.color_of('#').unwrap().r, 0);
    assert_eq!(xpm2.color_of('#').unwrap().g, 0);
    assert_eq!(xpm2.color_of('#').unwrap().b, 0);

    assert_eq!(xpm2.color_of('-').unwrap().r, 255);
    assert_eq!(xpm2.color_of('-').unwrap().g, 255);
    assert_eq!(xpm2.color_of('-').unwrap().b, 255);

    assert_eq!(xpm2.pixels[0], "##--");
    assert_eq!(xpm2.pixels[1], "##--");
    assert_eq!(xpm2.pixels[2], "--##");
    assert_eq!(xpm2.pixels[3], "--##");
}

#[test]
fn read_rejects_bad_header() {
    assert_eq!(Xpm2::read("! XPM\n1 1 1 1\n# c #000000\n#").unwrap_err(), ReadError::InvalidHeaderFormat);
    assert_eq!(
        Xpm2::read("").unwrap_err().message(),
        "The file contain insufficient data"
    );
}

#[test]
fn read_error_messages() {
    assert_eq!(
        Xpm2::read("! XPM").unwrap_err().message(),
        "expected `! XPM2` header"
    );
    assert_eq!(
        Xpm2::read("! XPM2\n0 1 1 1\n# c #000000\n#").unwrap_err().message(),
        "Image with zero dimension is not allowed"
    );
    assert_eq!(
        Xpm2::read("! XPM2\n1 1 1 1\n# x #000000\n#").unwrap_err().message(),
        "The file contains invalid color format"
    );
    assert_eq!(
        Xpm2::read("! XPM2\n1 1 1 1\n# c #000000\n##").unwrap_err().message(),
        "The file contains invalid pixel data"
    );
    assert_eq!(
        Xpm2::read("! XPM2\n1 1 1 1\n# c #000000\n#\nmore").unwrap_err().message(),
        "The file contains extraneous data"
    );
    assert_eq!(
        Xpm2::read("! XPM2\n1 1\n# c #000000\n#").unwrap_err().message(),
        "The file contains invalid values"
    );
}

#[test]
fn read_rejects_bad_values() {
    assert_eq!(Xpm2::read("! XPM2\n1 1 1\n# c #000000\n#").unwrap_err(), ReadError::InvalidValues);
    assert_eq!(Xpm2::read("! XPM2\n1 1 1 2\n# c #000000\n#").unwrap_err(), ReadError::InvalidValues);
    assert_eq!(Xpm2::read("! XPM2\n1 1 1 1 9\n# c #000000\n#").unwrap_err(), ReadError::InvalidValues);
    assert_eq!(Xpm2::read("! XPM2\n0 1 1 1\n# c #000000\n#").unwrap_err(), ReadError::ZeroDimension);
}

#[test]
fn read_rejects_bad_colors_and_pixels() {
    assert_eq!(
        Xpm2::read("! XPM2\n1 1 1 1\n# x #000000\n#").unwrap_err(),
        ReadError::InvalidColorFormat
    );
    assert_eq!(
        Xpm2::read("! XPM2\n1 1 1 1\n# c 000000\n#").unwrap_err(),
        ReadError::InvalidColorFormat
    );
    assert_eq!(
        Xpm2::read("! XPM2\n1 1 1 1\n# c #00000g\n#").unwrap_err(),
        ReadError::InvalidColorFormat
    );
    assert_eq!(Xpm2::read("! XPM2\n1 1 1 1\n# c #000000\n##").unwrap_err(), ReadError::InvalidPixel);
    assert_eq!(Xpm2::read("! XPM2\n1 1 1 1\n# c #000000\n-").unwrap_err(), ReadError::InvalidPixel);
    assert_eq!(
        Xpm2::read("! XPM2\n1 1 1 1\n# c #000000\n#\nextra").unwrap_err(),
        ReadError::ExtraneousData
    );
    assert_eq!(Xpm2::read("! XPM2\n2 2 1 1\n# c #000000\n##").unwrap_err(), ReadError::NotEnoughData);
}

#[test]
fn read_accepts_crlf_and_plus_signs() {
    // Carriage returns are stripped from line ends; the radix parser also
    // tolerates a leading plus inside a hex pair.
    let xpm2 = Xpm2::read("! XPM2\r\n1 1 1 1\r\n# c #+a0b0c\r\n#\r\n").unwrap();
    let c = xpm2.color_of('#').unwrap();
    assert_eq!((c.r, c.g, c.b), (10, 0x0B, 0x0C));
}

#[test]
fn write_as_svg_renders_one_pixel() {
    let xpm2 = Xpm2::read("! XPM2\n1 1 1 1\n# c #010203\n#").unwrap();
    let svg = xpm2.write_as_svg(10);
    let expected = "<svg width=\"10\" height=\"10\" xmlns=\"http://www.w3.org/2000/svg\">\n\t<style type=\"text/css\">\n\t\trect { stroke: #00FFFF } \n\t\trect.c35 { fill: #010203 }\n\t</style>\n\t<rect class=\"c35\", x=\"0\", y=\"0\", width=\"10\", height=\"10\" />\n\t</style>\n</svg>\n";
    assert_eq!(svg, expected);
}

#[test]
fn later_palette_entries_replace_earlier_ones() {
    let xpm2 = Xpm2::read("! XPM2\n1 1 2 1\n# c #000000\n# c #010101\n#").unwrap();
    assert_eq!(xpm2.colors.len(), 1);
    assert_eq!(xpm2.color_of('#').unwrap().r, 1);
}
