use raytrace::image::{blank_pixel_data, Image};

#[test]
fn blank_data_is_white() {
    let data = blank_pixel_data(3, 2);
    assert_eq!(data, vec![255u8; 18]);
}

#[test]
fn blank_data_of_an_empty_image_is_empty() {
    assert_eq!(blank_pixel_data(0, 5).len(), 0);
    assert_eq!(blank_pixel_data(5, 0).len(), 0);
}

#[test]
fn new_image_is_white() {
    let image = Image::new(4, 3);
    assert_eq!(image.width(), 4);
    assert_eq!(image.height(), 3);
    assert_eq!(image.pixel_data(), &vec![255u8; 36]);
    assert_eq!(image.get_pixel(3, 2), 0xFFFFFF);
}

#[test]
fn fill_with_stores_blue_green_red() {
    let mut image = Image::new(2, 2);
    image.fill_with(1, 2, 3);
    assert_eq!(image.pixel_data(), &vec![3u8, 2, 1, 3, 2, 1, 3, 2, 1, 3, 2, 1]);
    assert_eq!(image.get_pixel(1, 1), 0x010203);
}

#[test]
fn fill_with_hands_the_image_back() {
    let mut image = Image::new(2, 1);
    image.fill_with(9, 9, 9).fill_with(0, 128, 255);
    assert_eq!(image.pixel_data(), &vec![255u8, 128, 0, 255, 128, 0]);
    assert_eq!(image.width(), 2);
    assert_eq!(image.height(), 1);
}

#[test]
fn put_pixel_writes_one_pixel() {
    let mut image = Image::new(3, 2);
    image.put_pixel(1, 1, 0x102030);
    let mut expected = vec![255u8; 18];
    expected[12] = 0x30;
    expected[13] = 0x20;
    expected[14] = 0x10;
    assert_eq!(image.pixel_data(), &expected);
}

#[test]
fn rows_run_from_the_top() {
    let mut image = Image::new(2, 2);
    image.fill_with(0, 0, 0);
    image.put_pixel(0, 0, 0x000001);
    image.put_pixel(1, 0, 0x000002);
    image.put_pixel(0, 1, 0x000003);
    image.put_pixel(1, 1, 0x000004);
    assert_eq!(image.pixel_data(), &vec![1u8, 0, 0, 2, 0, 0, 3, 0, 0, 4, 0, 0]);
}

#[test]
fn get_pixel_reads_what_put_pixel_wrote() {
    let mut image = Image::new(5, 4);
    image.put_pixel(4, 3, 0xABCDEF);
    image.put_pixel(0, 0, 0x000000);
    assert_eq!(image.get_pixel(4, 3), 0xABCDEF);
    assert_eq!(image.get_pixel(0, 0), 0x000000);
    assert_eq!(image.get_pixel(2, 2), 0xFFFFFF);
}

#[test]
fn put_pixel_drops_the_top_byte() {
    let mut image = Image::new(1, 1);
    image.put_pixel(0, 0, 0xFF010203);
    assert_eq!(image.get_pixel(0, 0), 0x010203);
}

#[test]
fn shaded_centre_and_background_corner() {
    let mut image = Image::new(400, 400);
    image.fill_with(0, 0, 0);
    image.put_pixel(200, 200, 0x5A0000);
    let centre: u32 = image.get_pixel(200, 200);
    assert_ne!(centre & 0xFF0000, 0);
    assert_eq!(centre & 0x00FFFF, 0);
    assert_eq!(image.get_pixel(0, 0), 0x000000);
}
