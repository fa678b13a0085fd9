use diffimg::blend_diff::BlendMode;
use diffimg::config::{
    get_mode_from_string, rgba_from_string, string_into_blend_mode, Config, DiffMode,
    BLEND_MODES, DIFF_MODES,
};
use diffimg::pixel::Pixel;
use diffimg::raster::Image;

fn std_rgba(input: &str) -> Result<[u8; 4], String> {
    let mut cleaned = input.to_string();
    cleaned = cleaned.replace("[", "");
    cleaned = cleaned.replace("]", "");
    let parts: Vec<u8> = cleaned
        .split(',')
        .map(str::trim)
        .map(|s| s.parse::<u8>())
        .collect::<Result<_, _>>()
        .map_err(|err| err.to_string())?;
    Ok([
        parts.get(0).copied().unwrap_or(0),
        parts.get(1).copied().unwrap_or(0),
        parts.get(2).copied().unwrap_or(0),
        parts.get(3).copied().unwrap_or(0),
    ])
}

fn empty_image() -> Image {
    Image::new(0, 0, Vec::new()).unwrap()
}

#[test]
fn test_get_diff_mode_from_string_valid_inputs() {
    // Test with valid inputs
    assert_eq!(
        get_mode_from_string(DIFF_MODES[0]),
        Ok(DiffMode::MarkWithColor)
    );
    assert_eq!(get_mode_from_string(DIFF_MODES[1]), Ok(DiffMode::LCS));
    assert_eq!(get_mode_from_string(DIFF_MODES[2]), Ok(DiffMode::Blend));
}

#[test]
fn test_get_blend_mode_from_string_valid_inputs() {
    // Test with valid inputs
    assert_eq!(string_into_blend_mode(BLEND_MODES[0]), Ok(BlendMode::BIAS));
    assert_eq!(string_into_blend_mode(BLEND_MODES[1]), Ok(BlendMode::HUE));
    assert_eq!(
        string_into_blend_mode(BLEND_MODES[2]),
        Ok(BlendMode::Overlay)
    );
}

#[test]
fn test_get_mode_from_string_invalid_input() {
    // Test with an invalid input
    let input = "unknown";
    let expected_error = format!("Nothing matching {}", input);
    assert_eq!(get_mode_from_string(input), Err(expected_error));
}

#[test]
fn test_rgba_from_string() {
    let mut res = rgba_from_string("[0,255,0,0]");

    assert_eq!(res.is_ok() == true, true);

    res = rgba_from_string("[0,255,0,as]");

    assert_eq!(res.is_err() == true, true);
}

#[test]
fn the_fourth_blend_mode_is_identity() {
    assert_eq!(BLEND_MODES[3], "identity");
    assert_eq!(string_into_blend_mode("identity"), Ok(BlendMode::Identity));
}

#[test]
fn unknown_blend_modes_are_named_in_the_complaint() {
    assert_eq!(
        string_into_blend_mode("none"),
        Err("Nothing matching none".to_string())
    );
    assert_eq!(string_into_blend_mode(""), Err("Nothing matching ".to_string()));
    assert_eq!(
        get_mode_from_string("LCS"),
        Err("Nothing matching LCS".to_string())
    );
}

#[test]
fn colours_are_read_channel_by_channel() {
    assert_eq!(rgba_from_string("[0,255,0,0]"), Ok(Pixel::new(0, 255, 0, 0)));
    assert_eq!(rgba_from_string("1,2,3,4"), Ok(Pixel::new(1, 2, 3, 4)));
    assert_eq!(rgba_from_string("[ 7 ,\t8 , 9\n]"), Ok(Pixel::new(7, 8, 9, 0)));
    assert_eq!(rgba_from_string("12"), Ok(Pixel::new(12, 0, 0, 0)));
    assert_eq!(rgba_from_string("+5,007"), Ok(Pixel::new(5, 7, 0, 0)));
    assert_eq!(rgba_from_string("[1,2,3,4,5]"), Ok(Pixel::new(1, 2, 3, 4)));
    assert_eq!(rgba_from_string("[[1]],[2]"), Ok(Pixel::new(1, 2, 0, 0)));
    assert_eq!(rgba_from_string("2[5]5"), Ok(Pixel::new(255, 0, 0, 0)));
}

#[test]
fn colours_that_are_no_numbers_are_refused_with_the_reason() {
    let empty = Err("cannot parse integer from empty string".to_string());
    let digit = Err("invalid digit found in string".to_string());
    let large = Err("number too large to fit in target type".to_string());
    assert_eq!(rgba_from_string(""), empty);
    assert_eq!(rgba_from_string("[]"), empty);
    assert_eq!(rgba_from_string("1,,3"), empty);
    assert_eq!(rgba_from_string("1,2,"), empty);
    assert_eq!(rgba_from_string("1,  ,3"), empty);
    assert_eq!(rgba_from_string("[0,255,0,as]"), digit);
    assert_eq!(rgba_from_string("-5"), digit);
    assert_eq!(rgba_from_string("+"), digit);
    assert_eq!(rgba_from_string("-"), digit);
    assert_eq!(rgba_from_string("1 2"), digit);
    assert_eq!(rgba_from_string("1.5"), digit);
    assert_eq!(rgba_from_string("[1,2,3,4,x]"), digit);
    assert_eq!(rgba_from_string("256"), large);
    assert_eq!(rgba_from_string("1000"), large);
    assert_eq!(rgba_from_string("99999999999999999999999"), large);
    // the first field at fault decides
    assert_eq!(rgba_from_string("256,x"), large);
    assert_eq!(rgba_from_string("x,256"), digit);
    // and within a field the first character at fault
    assert_eq!(rgba_from_string("25x6"), digit);
    assert_eq!(rgba_from_string("2567x"), large);
}

#[test]
fn colours_are_read_as_the_standard_library_reads_numbers() {
    let inputs = [
        "[0,255,0,0]", "[0,255,0,as]", "", "[]", ",", "1,2", " 1 , 2 ", "+1", "++1", "-1", "-",
        "+", "255", "256", "0255", "00000000256", "1,2,3,4,5,6", "1,2,3,4,,", "\u{a0}7\u{3000}",
        "\u{2003}9", "7\u{200b}", "1e2", "0x10", "१२", "[1],[2],[3],[4]", "2[5]5", "12 3",
        "999x", "99x9", "+0", "-0", " ", "[ ]", "1,\r\n2", "\u{85}3\u{1680}",
    ];
    for input in inputs {
        let expected = std_rgba(input).map(|c| Pixel::new(c[0], c[1], c[2], c[3]));
        assert_eq!(rgba_from_string(input), expected, "input {:?}", input);
    }
}

#[test]
fn a_configuration_is_read_from_the_command_line_texts() {
    let config = Config::from_arguments(
        empty_image(),
        empty_image(),
        Some("out.png".to_string()),
        Some("blend"),
        Some("hue"),
        "[1,2,3,4]",
    )
    .unwrap();
    assert_eq!(config.mode, Some(DiffMode::Blend));
    assert_eq!(config.blend_mode, BlendMode::HUE);
    assert_eq!(config.color, Pixel::new(1, 2, 3, 4));
    assert_eq!(config.filename, Some("out.png".to_string()));
    assert_eq!((config.rate.numerator(), config.rate.denominator()), (100, 256));

    let config =
        Config::from_arguments(empty_image(), empty_image(), None, None, None, "9").unwrap();
    assert_eq!(config.mode, None);
    assert_eq!(config.blend_mode, BlendMode::Overlay);
    assert_eq!(config.color, Pixel::new(9, 0, 0, 0));
    assert_eq!(config.filename, None);
}

#[test]
fn the_first_bad_text_of_a_configuration_decides_the_complaint() {
    let out = Config::from_arguments(
        empty_image(),
        empty_image(),
        None,
        Some("nope"),
        Some("neither"),
        "x",
    );
    assert_eq!(out.err(), Some("Nothing matching nope".to_string()));
    let out = Config::from_arguments(
        empty_image(),
        empty_image(),
        None,
        Some("lcs"),
        Some("neither"),
        "x",
    );
    assert_eq!(out.err(), Some("Nothing matching neither".to_string()));
    let out =
        Config::from_arguments(empty_image(), empty_image(), None, Some("lcs"), None, "x");
    assert_eq!(out.err(), Some("invalid digit found in string".to_string()));
}
