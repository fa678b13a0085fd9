use diffimg::blend_diff::BlendMode;
use diffimg::comparator::{run_comparison, Comparison};
use diffimg::config::{Config, DiffMode};
use diffimg::diff_ratio::DiffRatio;
use diffimg::error::DiffError;
use diffimg::lcs_diff::default_rate;
use diffimg::pixel::Pixel;
use diffimg::raster::Image;

fn row_image(width: u32, rows: &[u8]) -> Image {
    let mut pixels = Vec::new();
    for &v in rows {
        for _ in 0..width {
            pixels.push(Pixel::new(v, v, v, 255));
        }
    }
    Image::new(width, rows.len() as u32, pixels).unwrap()
}

fn config(
    image1: Image,
    image2: Image,
    filename: Option<&str>,
    mode: Option<DiffMode>,
    blend_mode: BlendMode,
) -> Config {
    Config {
        image1,
        image2,
        filename: filename.map(|s| s.to_string()),
        mode,
        blend_mode,
        color: Pixel::new(0, 255, 0, 0),
        rate: default_rate(),
    }
}

fn picture(out: Result<Comparison, DiffError>) -> Image {
    match out {
        Ok(Comparison::Picture(img)) => img,
        other => panic!("no picture: {:?}", other),
    }
}

#[test]
fn without_a_file_name_the_ratio_is_measured() {
    let c = config(
        row_image(2, &[0, 0]),
        row_image(2, &[0, 255]),
        None,
        Some(DiffMode::Blend),
        BlendMode::HUE,
    );
    match run_comparison(c) {
        Ok(Comparison::Ratio(r)) => {
            assert_eq!(r, DiffRatio { total_diff: 6 * 255, total_possible: 12 * 255 })
        }
        other => panic!("no ratio: {:?}", other),
    }
}

#[test]
fn the_solid_colour_mode_marks_changed_pixels() {
    let c = config(
        row_image(1, &[0, 7]),
        row_image(1, &[0, 8]),
        Some("out.png"),
        Some(DiffMode::MarkWithColor),
        BlendMode::HUE,
    );
    let img = picture(run_comparison(c));
    assert_eq!(
        img.pixels(),
        &vec![Pixel::new(0, 0, 0, 255), Pixel::new(0, 255, 0, 0)]
    );
}

#[test]
fn the_blend_mode_blends_in_the_configured_way() {
    let c = config(
        row_image(1, &[100]),
        row_image(1, &[50]),
        Some("out.png"),
        Some(DiffMode::Blend),
        BlendMode::Identity,
    );
    let img = picture(run_comparison(c));
    assert_eq!(img.pixels(), &vec![Pixel::new(75, 75, 75, 0)]);
}

#[test]
fn the_row_mode_is_taken_where_none_is_named() {
    for mode in [Some(DiffMode::LCS), None] {
        let c = config(
            row_image(1, &[10]),
            row_image(1, &[10, 0]),
            Some("out.png"),
            mode,
            BlendMode::Overlay,
        );
        let img = picture(run_comparison(c));
        assert_eq!(img.dimensions(), (1, 2));
        assert_eq!(
            img.pixels(),
            &vec![Pixel::new(10, 10, 10, 255), Pixel::new(38, 76, 38, 255)]
        );
    }
}

#[test]
fn pixel_modes_refuse_images_of_different_sizes() {
    for (filename, mode) in [
        (None, Some(DiffMode::LCS)),
        (Some("out.png"), Some(DiffMode::MarkWithColor)),
        (Some("out.png"), Some(DiffMode::Blend)),
    ] {
        let c = config(
            row_image(1, &[10]),
            row_image(1, &[10, 0]),
            filename,
            mode,
            BlendMode::Overlay,
        );
        match run_comparison(c) {
            Err(e) => assert_eq!(e, DiffError::DimensionMismatch),
            other => panic!("not refused: {:?}", other),
        }
    }
}
