//! Tile addressing, URL construction and text formatting.

use rsstreetview::{
    check_zoom, format_capture_date, format_u64, get_width_and_height_from_zoom, iter_tile_info,
    make_download_url, make_metadata_url, make_search_url, make_streetview_url, StreetViewError,
};

#[test]
fn test_zoom_dimensions() {
    assert_eq!(get_width_and_height_from_zoom(1), (2, 1));
    assert_eq!(get_width_and_height_from_zoom(2), (4, 2));
    assert_eq!(get_width_and_height_from_zoom(3), (8, 4));
    assert_eq!(get_width_and_height_from_zoom(4), (16, 8));
    assert_eq!(get_width_and_height_from_zoom(5), (32, 16));
}

#[test]
fn test_make_download_url() {
    let url = make_download_url("test_pano_id", 3, 5, 2);
    assert!(url.contains("panoid=test_pano_id"));
    assert!(url.contains("zoom=3"));
    assert!(url.contains("x=5"));
    assert!(url.contains("y=2"));
}

#[test]
fn test_iter_tile_info() {
    let tiles = iter_tile_info("test", 2);
    assert_eq!(tiles.len(), 8); // 4x2 = 8 tiles

    // Check first and last tiles
    assert_eq!(tiles[0].x, 0);
    assert_eq!(tiles[0].y, 0);
    assert_eq!(tiles[7].x, 3);
    assert_eq!(tiles[7].y, 1);
}

#[test]
fn test_iter_tile_info_row_major() {
    let tiles = iter_tile_info("p", 1);
    let addresses: Vec<(u32, u32)> = tiles.iter().map(|t| (t.x, t.y)).collect();
    assert_eq!(addresses, vec![(0, 0), (1, 0)]);
    for (i, t) in iter_tile_info("p", 3).iter().enumerate() {
        assert_eq!(t.x as usize, i % 8);
        assert_eq!(t.y as usize, i / 8);
        assert!(t.url.contains("panoid=p"));
    }
}

#[test]
fn test_download_url_exact() {
    assert_eq!(
        make_download_url("abc", 1, 0, 0),
        "https://cbk0.google.com/cbk?output=tile&panoid=abc&zoom=1&x=0&y=0"
    );
}

#[test]
fn test_metadata_url_construction() {
    let url = make_metadata_url("test_pano", "test_key");
    assert!(url.contains("pano=test_pano"));
    assert!(url.contains("key=test_key"));
}

#[test]
fn test_streetview_url_construction() {
    let url = make_streetview_url("test_pano", "test_key", 640, 640, 90, 120, 0);
    assert!(url.contains("size=640x640"));
    assert!(url.contains("fov=120"));
    assert!(url.contains("heading=90"));
}

#[test]
fn test_streetview_url_negative_pitch() {
    let url = make_streetview_url("p", "k", 640, 480, 0, 90, -15);
    assert!(url.contains("pitch=-15"));
    assert!(url.contains("size=640x480"));
}

#[test]
fn test_search_url_contains_coordinates() {
    let url = make_search_url("41.8982208", "12.4764804");
    assert!(url.contains("!3d41.8982208!4d12.4764804"));
    assert!(url.contains("callback=callbackfunc"));
}

#[test]
fn test_format_u64() {
    assert_eq!(format_u64(0), "0");
    assert_eq!(format_u64(7), "7");
    assert_eq!(format_u64(1234), "1234");
    assert_eq!(format_u64(1000000), "1000000");
}

#[test]
fn test_format_capture_date() {
    assert_eq!(format_capture_date(2020, 5), "2020-05");
    assert_eq!(format_capture_date(2019, 11), "2019-11");
    assert_eq!(format_capture_date(1999, 10), "1999-10");
}

#[test]
fn test_check_zoom_domain() {
    assert!(check_zoom(1).is_ok());
    assert!(check_zoom(7).is_ok());
    assert!(matches!(check_zoom(0), Err(StreetViewError::InvalidParameter(_))));
    assert!(matches!(check_zoom(8), Err(StreetViewError::InvalidParameter(_))));
}
