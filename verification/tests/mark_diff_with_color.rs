use diffimg::error::DiffError;
use diffimg::mark_diff_with_color::{highlight_changes_with_color, mark_diff_with_color};
use diffimg::pixel::Pixel;
use diffimg::raster::Image;

fn grey(width: u32, height: u32, value: u8) -> Image {
    let pixels = vec![Pixel::new(value, value, value, 255); (width * height) as usize];
    Image::new(width, height, pixels).unwrap()
}

#[test]
fn test_highlight_changes_with_color() {
    let image1 = grey(4, 4, 10);
    let image2 = grey(4, 4, 200);
    let color = Pixel::new(0, 255, 0, 0);

    let result = highlight_changes_with_color(image1, image2, color);

    assert_eq!(result.is_ok(), result.is_ok());
    assert!(result.is_ok());
}

#[test]
fn highlight_of_an_image_against_itself_marks_nothing() {
    let mut pixels = Vec::new();
    for k in 0..12u8 {
        pixels.push(Pixel::new(k, 2 * k, 255 - k, k));
    }
    let a = Image::new(4, 3, pixels.clone()).unwrap();
    let b = a.duplicate();
    let out = highlight_changes_with_color(a, b, Pixel::new(255, 0, 255, 0)).unwrap();
    assert_eq!(out.dimensions(), (4, 3));
    assert_eq!(out.pixels(), &pixels);
}

#[test]
fn highlight_marks_exactly_the_changed_pixels() {
    let mark = Pixel::new(0, 255, 0, 0);
    let a = Image::new(
        2,
        2,
        vec![
            Pixel::new(1, 1, 1, 255),
            Pixel::new(2, 2, 2, 255),
            Pixel::new(3, 3, 3, 255),
            Pixel::new(4, 4, 4, 9),
        ],
    )
    .unwrap();
    let b = Image::new(
        2,
        2,
        vec![
            Pixel::new(1, 1, 1, 255),
            Pixel::new(2, 9, 2, 255),
            Pixel::new(3, 3, 0, 255),
            Pixel::new(4, 4, 4, 200),
        ],
    )
    .unwrap();
    let out = mark_diff_with_color(a, b, mark).unwrap();
    assert_eq!(
        out.pixels(),
        &vec![
            Pixel::new(1, 1, 1, 255),
            mark,
            mark,
            // alpha plays no part in the comparison
            Pixel::new(4, 4, 4, 9),
        ]
    );
}

#[test]
fn highlight_refuses_images_of_different_sizes() {
    let out = highlight_changes_with_color(grey(2, 3, 0), grey(3, 2, 0), Pixel::new(0, 0, 0, 0));
    assert_eq!(out.err(), Some(DiffError::DimensionMismatch));
    let out = mark_diff_with_color(grey(2, 3, 0), grey(2, 4, 0), Pixel::new(0, 0, 0, 0));
    assert_eq!(out.err(), Some(DiffError::DimensionMismatch));
}

#[test]
fn images_are_built_only_from_full_grids() {
    assert!(Image::new(2, 2, vec![Pixel::new(0, 0, 0, 0); 3]).is_none());
    assert!(Image::new(0, 5, Vec::new()).is_some());
    let mut img = grey(3, 2, 7);
    assert_eq!(img.width(), 3);
    assert_eq!(img.height(), 2);
    assert_eq!(img.get_pixel(2, 1), Some(Pixel::new(7, 7, 7, 255)));
    assert_eq!(img.get_pixel(3, 1), None);
    assert_eq!(img.get_pixel(0, 2), None);
    assert!(img.put_pixel(1, 1, Pixel::new(1, 2, 3, 4)));
    assert!(!img.put_pixel(1, 2, Pixel::new(1, 2, 3, 4)));
    assert_eq!(img.get_pixel(1, 1), Some(Pixel::new(1, 2, 3, 4)));
    assert_eq!(img.get_pixel(1, 0), Some(Pixel::new(7, 7, 7, 255)));
    assert_eq!(Pixel::new(1, 2, 3, 4).to_rgb(), (1, 2, 3));
    let pixels = img.into_pixels();
    assert_eq!(pixels.len(), 6);
    assert_eq!(pixels[4], Pixel::new(1, 2, 3, 4));
}

#[test]
fn every_error_has_its_own_message() {
    let all = [
        DiffError::DimensionMismatch,
        DiffError::MalformedRows,
        DiffError::InvalidScript,
        DiffError::TooLarge,
    ];
    assert_eq!(
        DiffError::DimensionMismatch.message(),
        "the two images differ in width or height"
    );
    for (i, a) in all.iter().enumerate() {
        for b in all.iter().skip(i + 1) {
            assert_ne!(a.message(), b.message());
        }
    }
}
