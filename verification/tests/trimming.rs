//! Black-border trimming.

use rsstreetview::{crop_bottom_and_right_black_border, Raster};

fn white_image(width: u32, height: u32) -> Raster {
    Raster::filled(width, height, 255, 255, 255).unwrap()
}

#[test]
fn test_no_black_borders() {
    // Create image with no black borders
    let img = white_image(100, 100);
    let cropped = crop_bottom_and_right_black_border(img);

    assert_eq!((cropped.width, cropped.height), (100, 100));
}

#[test]
fn test_with_black_bottom() {
    // Create image with black bottom border
    let mut img = white_image(100, 100);

    // Add black bottom rows
    for y in 90..100 {
        for x in 0..100 {
            img.put_pixel(x, y, 0, 0, 0);
        }
    }

    let cropped = crop_bottom_and_right_black_border(img);
    assert_eq!((cropped.width, cropped.height), (100, 90));
}

#[test]
fn test_with_black_right() {
    // Create image with black right border
    let mut img = white_image(100, 100);

    // Add black right columns
    for x in 90..100 {
        for y in 0..100 {
            img.put_pixel(x, y, 0, 0, 0);
        }
    }

    let cropped = crop_bottom_and_right_black_border(img);
    assert_eq!((cropped.width, cropped.height), (90, 100));
}

#[test]
fn test_with_both_borders() {
    // Create image with both black borders
    let mut img = white_image(100, 100);

    // Add black bottom rows
    for y in 90..100 {
        for x in 0..100 {
            img.put_pixel(x, y, 0, 0, 0);
        }
    }

    // Add black right columns
    for x in 90..100 {
        for y in 0..90 {
            img.put_pixel(x, y, 0, 0, 0);
        }
    }

    let cropped = crop_bottom_and_right_black_border(img);
    assert_eq!((cropped.width, cropped.height), (90, 90));
}

#[test]
fn test_stray_bright_pixel_keeps_height() {
    // A black bottom border with a single bright pixel in the last row:
    // the scan stops at that pixel and the vertical crop is not made.
    let mut img = white_image(100, 100);
    for y in 90..100 {
        for x in 0..100 {
            img.put_pixel(x, y, 0, 0, 0);
        }
    }
    img.put_pixel(50, 99, 255, 255, 255);

    let cropped = crop_bottom_and_right_black_border(img);
    assert_eq!((cropped.width, cropped.height), (100, 100));
}

#[test]
fn test_trim_keeps_pixels() {
    let mut img = white_image(10, 10);
    img.put_pixel(3, 4, 10, 200, 30);
    for y in 8..10 {
        for x in 0..10 {
            img.put_pixel(x, y, 0, 0, 0);
        }
    }
    let expected = img.clone();
    let cropped = crop_bottom_and_right_black_border(img);
    assert_eq!((cropped.width, cropped.height), (10, 8));
    assert_eq!(cropped.get_pixel(3, 4), (10, 200, 30));
    for y in 0..8 {
        for x in 0..10 {
            assert_eq!(cropped.get_pixel(x, y), expected.get_pixel(x, y));
        }
    }
}

#[test]
fn test_trim_idempotent() {
    let mut img = white_image(20, 20);
    for y in 15..20 {
        for x in 0..20 {
            img.put_pixel(x, y, 1, 1, 1);
        }
    }
    for x in 12..20 {
        for y in 0..15 {
            img.put_pixel(x, y, 2, 2, 2);
        }
    }
    let once = crop_bottom_and_right_black_border(img);
    let again = crop_bottom_and_right_black_border(once.clone());
    assert_eq!((once.width, once.height), (12, 15));
    assert_eq!((again.width, again.height), (once.width, once.height));
    assert_eq!(again.data, once.data);
}

#[test]
fn test_all_dark_image_unchanged() {
    // An image with no bright pixel at all is returned whole.
    let img = Raster::filled(30, 20, 0, 0, 0).unwrap();
    let cropped = crop_bottom_and_right_black_border(img);
    assert_eq!((cropped.width, cropped.height), (30, 20));
}
