//! View configuration and extraction.

use rsstreetview::{
    extract_multiple_views, extract_view_from_panorama, Direction, Raster, StreetViewError,
    ViewConfig,
};

#[test]
fn test_direction_headings() {
    assert_eq!(Direction::Front.heading(), 0);
    assert_eq!(Direction::Right.heading(), 90);
    assert_eq!(Direction::Back.heading(), 180);
    assert_eq!(Direction::Left.heading(), 270);
}

#[test]
fn test_view_config_builder() {
    let config = ViewConfig::new(45).fov(120).pitch(10).size(800, 600);

    assert_eq!(config.heading, 45);
    assert_eq!(config.fov, 120);
    assert_eq!(config.pitch, 10);
}

#[test]
fn test_direction_names() {
    assert_eq!(Direction::Front.name(), "front");
    assert_eq!(Direction::Right.name(), "right");
    assert_eq!(Direction::Back.name(), "back");
    assert_eq!(Direction::Left.name(), "left");
}

#[test]
fn test_view_config_clamps() {
    let config = ViewConfig::new(10).fov(300).pitch(120).zoom(9);
    assert_eq!(config.fov, 180);
    assert_eq!(config.pitch, 90);
    assert_eq!(config.zoom, 7);
    let config = ViewConfig::new(10).pitch(-120).zoom(0);
    assert_eq!(config.pitch, -90);
    assert_eq!(config.zoom, 1);
}

#[test]
fn test_default_view_native_crop_size() {
    // heading 0, pitch 0, fov 90, no target size on a 1024x512 panorama:
    // the crop is a quarter of the width and vertically centered.
    let pano = Raster::filled(1024, 512, 80, 90, 100).unwrap();
    let config = ViewConfig::new(0);
    let view = extract_view_from_panorama(&pano, &config).unwrap();
    assert_eq!((view.width, view.height), (256, 256));
}

#[test]
fn test_back_view_centered() {
    // At heading 180 the same window is horizontally centered: the marked
    // center pixel of the panorama lands in the middle of the view.
    let mut pano = Raster::filled(1024, 512, 7, 7, 7).unwrap();
    pano.put_pixel(512, 256, 250, 1, 2);
    let config = ViewConfig::new(180);
    let view = extract_view_from_panorama(&pano, &config).unwrap();
    assert_eq!((view.width, view.height), (256, 256));
    assert_eq!(view.get_pixel(128, 128), (250, 1, 2));
}

#[test]
fn test_explicit_size_is_exact() {
    // Requesting an explicit size always yields exactly that size.
    let pano = Raster::filled(1024, 512, 10, 20, 30).unwrap();
    let config = ViewConfig::new(90).size(100, 50);
    let view = extract_view_from_panorama(&pano, &config).unwrap();
    assert_eq!((view.width, view.height), (100, 50));

    let config = ViewConfig::new(37).fov(65).pitch(-20).size(33, 77);
    let view = extract_view_from_panorama(&pano, &config).unwrap();
    assert_eq!((view.width, view.height), (33, 77));
}

#[test]
fn test_extract_deterministic() {
    let mut pano = Raster::filled(512, 256, 1, 2, 3).unwrap();
    pano.put_pixel(300, 100, 200, 100, 50);
    let config = ViewConfig::new(200).fov(70).pitch(5).size(64, 64);
    let a = extract_view_from_panorama(&pano, &config).unwrap();
    let b = extract_view_from_panorama(&pano, &config).unwrap();
    assert_eq!(a.data, b.data);
    assert_eq!((a.width, a.height), (b.width, b.height));
}

#[test]
fn test_extract_rejects_bad_config() {
    let pano = Raster::filled(64, 32, 0, 0, 0).unwrap();
    let zero_fov = ViewConfig { heading: 0, fov: 0, pitch: 0, size: None, zoom: 3 };
    assert!(matches!(
        extract_view_from_panorama(&pano, &zero_fov),
        Err(StreetViewError::InvalidParameter(_))
    ));
    let wild_heading = ViewConfig { heading: 400, fov: 90, pitch: 0, size: None, zoom: 3 };
    assert!(matches!(
        extract_view_from_panorama(&pano, &wild_heading),
        Err(StreetViewError::InvalidParameter(_))
    ));
    let empty_target = ViewConfig { heading: 0, fov: 90, pitch: 0, size: Some((0, 10)), zoom: 3 };
    assert!(matches!(
        extract_view_from_panorama(&pano, &empty_target),
        Err(StreetViewError::InvalidParameter(_))
    ));
}

#[test]
fn test_extract_multiple_views_counts() {
    let pano = Raster::filled(256, 128, 9, 9, 9).unwrap();
    let none: Vec<ViewConfig> = Vec::new();
    assert_eq!(extract_multiple_views(&pano, &none).unwrap().len(), 0);

    let configs = vec![
        ViewConfig::from_direction(Direction::Front),
        ViewConfig::from_direction(Direction::Right),
        ViewConfig::from_direction(Direction::Back),
        ViewConfig::from_direction(Direction::Left),
    ];
    let views = extract_multiple_views(&pano, &configs).unwrap();
    assert_eq!(views.len(), 4);
}

#[test]
fn test_narrow_view_never_empty() {
    // A one-degree field of view on a tiny panorama still yields at least
    // one pixel.
    let pano = Raster::filled(16, 8, 5, 5, 5).unwrap();
    let config = ViewConfig::new(0).fov(1);
    let view = extract_view_from_panorama(&pano, &config).unwrap();
    assert!(view.width >= 1 && view.height >= 1);
}
