use hide_rs::{create_rgb_image, HideError, Rgb, StegoImage};
use image::{DynamicImage, ImageFormat, RgbImage};
use std::io::Cursor;

fn create_test_image() -> StegoImage {
    let img_data = vec![
        255, 0, 0, 0, 255, 0, 0, 0, 255, 255, 255, 0, 0, 255, 255, 255, 0, 255, 128, 128, 128,
        255, 255, 255, 0, 0, 0, 100, 100, 100, 50, 150, 250, 200, 50, 150,
    ];

    StegoImage::from_rgb_data(4, 3, img_data).unwrap()
}

#[test]
fn test_image_dimensions() {
    let img = create_test_image();
    assert_eq!(img.width(), 4);
    assert_eq!(img.height(), 3);
    assert_eq!(img.dimensions(), (4, 3));
}

#[test]
fn test_get_set_pixel_rgb() {
    let mut img = create_test_image();

    let pixel = img.get_pixel_rgb(0, 0).unwrap();
    assert_eq!(pixel.0, [255, 0, 0]);

    img.set_pixel_rgb(0, 0, Rgb([10, 20, 30])).unwrap();
    let updated_pixel = img.get_pixel_rgb(0, 0).unwrap();
    assert_eq!(updated_pixel.0, [10, 20, 30]);

    assert!(img.get_pixel_rgb(10, 10).is_err());
    assert!(img.set_pixel_rgb(10, 10, Rgb([0, 0, 0])).is_err());
}

#[test]
fn img_test_lsb_operations() {
    let mut img = create_test_image();

    assert!(img.get_lsb(0, 0, 0).unwrap());
    assert!(!img.get_lsb(0, 0, 1).unwrap());
    assert!(!img.get_lsb(0, 0, 2).unwrap());

    img.set_lsb(0, 0, 0, false).unwrap();
    assert!(!img.get_lsb(0, 0, 0).unwrap());
    assert_eq!(img.get_pixel_rgb(0, 0).unwrap().0[0], 254);

    img.set_lsb(0, 0, 1, true).unwrap();
    assert!(img.get_lsb(0, 0, 1).unwrap());
    assert_eq!(img.get_pixel_rgb(0, 0).unwrap().0[1], 1);

    assert!(img.get_lsb(0, 0, 3).is_err());
    assert!(img.set_lsb(0, 0, 3, true).is_err());
}

#[test]
fn test_save_load_image() {
    let img = create_test_image();

    let (width, height) = img.dimensions();
    let raw = RgbImage::from_raw(width, height, img.as_rgb_data().to_vec()).unwrap();
    let mut buffer = Cursor::new(Vec::new());
    DynamicImage::ImageRgb8(raw).write_to(&mut buffer, ImageFormat::Png).unwrap();

    buffer.set_position(0);
    let loaded = image::load(buffer, ImageFormat::Png).unwrap().to_rgb8();
    let loaded_img =
        StegoImage::from_rgb_data(loaded.width(), loaded.height(), loaded.into_raw()).unwrap();

    assert_eq!(loaded_img.dimensions(), img.dimensions());

    assert_eq!(
        loaded_img.get_pixel_rgb(0, 0).unwrap().0,
        img.get_pixel_rgb(0, 0).unwrap().0
    );
    assert_eq!(
        loaded_img.get_pixel_rgb(1, 1).unwrap().0,
        img.get_pixel_rgb(1, 1).unwrap().0
    );
}

#[test]
fn img_test_max_message_size() {
    let img = create_test_image();
    assert_eq!(img.max_message_size(), 4);
}

#[test]
fn test_image_operations() {
    let mut img = create_rgb_image(2, 2);

    img.set_pixel_rgb(0, 0, Rgb([255, 0, 0])).unwrap();
    img.set_pixel_rgb(1, 0, Rgb([0, 255, 0])).unwrap();
    img.set_pixel_rgb(0, 1, Rgb([0, 0, 255])).unwrap();
    img.set_pixel_rgb(1, 1, Rgb([255, 255, 255])).unwrap();

    assert_eq!(img.get_pixel_rgb(0, 0).unwrap().0, [255, 0, 0]);
    assert_eq!(img.get_pixel_rgb(1, 0).unwrap().0, [0, 255, 0]);
    assert_eq!(img.get_pixel_rgb(0, 1).unwrap().0, [0, 0, 255]);
    assert_eq!(img.get_pixel_rgb(1, 1).unwrap().0, [255, 255, 255]);
}

#[test]
fn from_rgb_data_refuses_a_wrong_length() {
    assert!(StegoImage::from_rgb_data(2, 2, vec![0; 11]).is_none());
    assert!(StegoImage::from_rgb_data(2, 2, vec![0; 13]).is_none());
    assert!(StegoImage::from_rgb_data(0, 5, vec![]).is_some());
}

#[test]
fn pixels_are_row_major() {
    let img = create_test_image();
    assert_eq!(img.get_pixel_rgb(3, 0).unwrap().0, [255, 255, 0]);
    assert_eq!(img.get_pixel_rgb(0, 1).unwrap().0, [0, 255, 255]);
    assert_eq!(img.get_pixel_rgb(3, 2).unwrap().0, [200, 50, 150]);
    assert!(img.get_pixel_rgb(4, 0).is_err());
    assert!(img.get_pixel_rgb(0, 3).is_err());
}

#[test]
fn writes_mark_the_image_modified() {
    let mut img = create_rgb_image(3, 3);
    assert!(!img.is_modified());
    assert!(img.set_pixel_rgb(5, 0, Rgb([1, 2, 3])).is_err());
    assert!(!img.is_modified());
    img.set_pixel_rgb(2, 2, Rgb([1, 2, 3])).unwrap();
    assert!(img.is_modified());
    assert_eq!(img.as_rgb_data()[24..27], [1, 2, 3]);
}

#[test]
fn out_of_bounds_is_invalid_parameters() {
    let img = create_rgb_image(2, 2);
    assert!(matches!(img.get_pixel_rgb(2, 0), Err(HideError::InvalidParameters(_))));
    assert!(matches!(img.get_lsb(0, 0, 3), Err(HideError::InvalidParameters(_))));
}
