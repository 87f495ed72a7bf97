//! The download pipeline: decode, retry, gather, assemble, encode; and URL
//! parsing.

use rsstreetview::{
    assemble_tiles, collect_tile_results, decode_tile_image, encode_panorama,
    find_panorama_index, parse_url, retry_step, AttemptOutcome, FailureKind, ImageFormat,
    PanoramaSaveExt, Raster, RetryStep, SaveOptions, StreetViewError, Tile, DEFAULT_MAX_RETRIES,
    RETRY_DELAY_SECS,
};

fn tile_image(red: u8, green: u8, blue: u8) -> Raster {
    Raster::filled(512, 512, red, green, blue).unwrap()
}

/// Drive the per-tile retry policy over a fixed list of attempt outcomes,
/// the way the download loop does, and report the resolution and how many
/// attempts it took.
fn run_retry(outcomes: Vec<AttemptOutcome>) -> (RetryStep, u32) {
    let mut retries: u32 = 0;
    for outcome in outcomes {
        match retry_step(retries, outcome, DEFAULT_MAX_RETRIES) {
            RetryStep::RetryAfter(delay) => {
                assert_eq!(delay, RETRY_DELAY_SECS);
                retries += 1;
            }
            step => return (step, retries + 1),
        }
    }
    panic!("outcomes ran out before the retry policy resolved");
}

#[test]
fn test_retry_succeeds_after_transient_failures() {
    // Three transport failures, then success: the tile arrives on the
    // fourth attempt.
    let good = tile_image(1, 2, 3);
    let mut outcomes = vec![
        AttemptOutcome::Failure(FailureKind::Transport),
        AttemptOutcome::Failure(FailureKind::Transport),
        AttemptOutcome::Failure(FailureKind::Transport),
    ];
    outcomes.push(AttemptOutcome::Success(good));
    let (step, attempts) = run_retry(outcomes);
    assert_eq!(attempts, 4);
    match step {
        RetryStep::Done(img) => assert_eq!(img.get_pixel(0, 0), (1, 2, 3)),
        _ => panic!("expected the decoded tile"),
    }
}

#[test]
fn test_retry_exhausted_after_seven_attempts() {
    // A source that always fails: terminal after exactly seven attempts.
    let outcomes: Vec<AttemptOutcome> =
        (0..10).map(|_| AttemptOutcome::Failure(FailureKind::BodyRead)).collect();
    let (step, attempts) = run_retry(outcomes);
    assert_eq!(attempts, 7);
    match step {
        RetryStep::Fail(StreetViewError::RetryExhausted { attempts, last }) => {
            assert_eq!(attempts, 7);
            assert!(matches!(last, FailureKind::BodyRead));
        }
        _ => panic!("expected retry exhaustion"),
    }
}

#[test]
fn test_decode_classifies_garbage() {
    let garbage: Vec<u8> = vec![1, 2, 3, 4, 5, 6, 7, 8];
    assert!(matches!(decode_tile_image(&garbage), Err(FailureKind::Decode)));
}

#[test]
fn test_decode_classifies_wrong_dimensions() {
    let small = Raster::filled(16, 16, 9, 9, 9).unwrap();
    let bytes = small.to_png_bytes().unwrap();
    assert!(matches!(decode_tile_image(&bytes), Err(FailureKind::WrongDimensions)));
}

#[test]
fn test_png_round_trip() {
    let mut img = tile_image(10, 20, 30);
    img.put_pixel(100, 200, 250, 240, 230);
    let bytes = img.to_png_bytes().unwrap();
    let decoded = decode_tile_image(&bytes).unwrap();
    assert_eq!((decoded.width, decoded.height), (512, 512));
    assert_eq!(decoded.get_pixel(0, 0), (10, 20, 30));
    assert_eq!(decoded.get_pixel(100, 200), (250, 240, 230));
    assert_eq!(decoded.data, img.data);
}

#[test]
fn test_webp_round_trip() {
    let mut img = tile_image(60, 70, 80);
    img.put_pixel(5, 5, 1, 2, 3);
    let bytes = img.to_webp_bytes(4, 85).unwrap();
    let decoded = decode_tile_image(&bytes).unwrap();
    assert_eq!((decoded.width, decoded.height), (512, 512));
    assert_eq!(decoded.get_pixel(5, 5), (1, 2, 3));
}

#[test]
fn test_jpeg_encode_decodes_to_tile_size() {
    let img = tile_image(120, 130, 140);
    let bytes = img.to_jpeg_bytes(90).unwrap();
    let decoded = decode_tile_image(&bytes).unwrap();
    assert_eq!((decoded.width, decoded.height), (512, 512));
}

#[test]
fn test_encode_panorama_matches_trait_methods() {
    let img = Raster::filled(32, 16, 1, 2, 3).unwrap();
    let options = SaveOptions::new().format(ImageFormat::Png);
    assert_eq!(encode_panorama(&img, &options).unwrap(), img.to_png_bytes().unwrap());
}

#[test]
fn test_jpeg_rejects_oversized_raster() {
    // JPEG cannot hold a side over 65535 pixels.
    let wide = Raster::filled(70000, 1, 0, 0, 0).unwrap();
    assert!(matches!(wide.to_jpeg_bytes(90), Err(StreetViewError::EncodeFailure)));
}

#[test]
fn test_save_options_clamps() {
    let options = SaveOptions::new().jpeg_quality(0).webp_quality(200).webp_method(9);
    assert_eq!(options.jpeg_quality, 1);
    assert_eq!(options.webp_quality, 100);
    assert_eq!(options.webp_method, 6);
    assert!(matches!(SaveOptions::new().format, ImageFormat::WebP));
}

#[test]
fn test_assembly_order_independent() {
    // Shuffling the tile list before assembling produces a byte-identical
    // panorama.
    let make_tiles = || {
        vec![
            Tile { x: 0, y: 0, image: tile_image(10, 0, 0) },
            Tile { x: 1, y: 0, image: tile_image(0, 20, 0) },
        ]
    };
    let mut shuffled = make_tiles();
    shuffled.reverse();

    let a = assemble_tiles(make_tiles(), 1).unwrap();
    let b = assemble_tiles(shuffled, 1).unwrap();
    assert_eq!((a.width, a.height), (1024, 512));
    assert_eq!(a.get_pixel(0, 0), (10, 0, 0));
    assert_eq!(a.get_pixel(600, 100), (0, 20, 0));
    assert_eq!(a.data, b.data);
}

#[test]
fn test_assembly_rejects_wrong_tile_size() {
    let tiles = vec![Tile { x: 0, y: 0, image: Raster::filled(100, 100, 0, 0, 0).unwrap() }];
    match assemble_tiles(tiles, 1) {
        Err(StreetViewError::DimensionMismatch { x, y, width, height }) => {
            assert_eq!((x, y, width, height), (0, 0, 100, 100));
        }
        _ => panic!("expected a dimension mismatch"),
    }
}

#[test]
fn test_assembly_rejects_address_outside_grid() {
    let tiles = vec![Tile { x: 5, y: 0, image: tile_image(0, 0, 0) }];
    assert!(matches!(assemble_tiles(tiles, 1), Err(StreetViewError::InvalidParameter(_))));
}

#[test]
fn test_collect_tile_results_gathers_in_order() {
    let results: Vec<Result<Tile, StreetViewError>> = vec![
        Ok(Tile { x: 0, y: 0, image: tile_image(1, 1, 1) }),
        Ok(Tile { x: 1, y: 0, image: tile_image(2, 2, 2) }),
    ];
    let tiles = collect_tile_results(results).unwrap();
    assert_eq!(tiles.len(), 2);
    assert_eq!((tiles[0].x, tiles[1].x), (0, 1));
}

#[test]
fn test_download_fails_whole_on_undecodable_tile() {
    // Zoom 2 is a 4x2 grid. One tile keeps yielding undecodable bytes: its
    // retries exhaust with a decode classification, the gathered results
    // resolve to that terminal error, and no panorama is assembled.
    let garbage: Vec<u8> = vec![0xde, 0xad, 0xbe, 0xef];
    let mut results: Vec<Result<Tile, StreetViewError>> = Vec::new();
    for y in 0..2u32 {
        for x in 0..4u32 {
            if (x, y) == (2, 1) {
                let mut retries = 0;
                let error = loop {
                    let kind = match decode_tile_image(&garbage) {
                        Err(kind) => kind,
                        Ok(_) => panic!("garbage must not decode"),
                    };
                    match retry_step(retries, AttemptOutcome::Failure(kind), DEFAULT_MAX_RETRIES) {
                        RetryStep::RetryAfter(_) => retries += 1,
                        RetryStep::Fail(e) => break e,
                        RetryStep::Done(_) => panic!("garbage must not decode"),
                    }
                };
                results.push(Err(error));
            } else {
                results.push(Ok(Tile { x, y, image: tile_image(3, 3, 3) }));
            }
        }
    }
    match collect_tile_results(results) {
        Err(StreetViewError::RetryExhausted { attempts, last }) => {
            assert_eq!(attempts, 7);
            assert!(matches!(last, FailureKind::Decode));
        }
        _ => panic!("the whole download must fail with the decode error"),
    }
}

#[test]
fn test_parse_url() {
    let url = "https://www.google.com/maps/@41.8982208,12.4764804,17z";
    let (lat, lon, _) = parse_url(url).unwrap();
    let lat: f64 = lat.parse().unwrap();
    let lon: f64 = lon.parse().unwrap();
    assert!((lat - 41.8982208).abs() < 0.0001);
    assert!((lon - 12.4764804).abs() < 0.0001);
}

#[test]
fn test_parse_url_with_pano() {
    let url = "https://www.google.com/maps/@41.8982208,12.4764804,3a,75y,90t/data=!3m6!1e1!3m4!1sAF1QipNRA!2e0!7i16384!8i8192!1sABCD123";
    let (lat, lon, pano_id) = parse_url(url).unwrap();
    let lat: f64 = lat.parse().unwrap();
    let lon: f64 = lon.parse().unwrap();
    assert!((lat - 41.8982208).abs() < 0.0001);
    assert!((lon - 12.4764804).abs() < 0.0001);
    assert!(pano_id.is_some());
}

#[test]
fn test_parse_url_bang_form() {
    let url = "https://www.google.com/maps/place/x/!8m2!3d-41.25!4d12.5";
    let (lat, lon, pano) = parse_url(url).unwrap();
    assert_eq!(lat, "-41.25");
    assert_eq!(lon, "12.5");
    assert!(pano.is_none());
}

#[test]
fn test_parse_url_prefers_at_form() {
    let url = "https://maps/@1.5,2.5,17z!3d9.9!4d8.8";
    let (lat, lon, _) = parse_url(url).unwrap();
    assert_eq!(lat, "1.5");
    assert_eq!(lon, "2.5");
}

#[test]
fn test_parse_url_rejects_plain_text() {
    assert!(matches!(parse_url("https://example.com/nothing-here"), Err(StreetViewError::InvalidUrl)));
}

#[test]
fn test_find_panorama_index_cases() {
    let ids = vec!["aaa".to_string(), "bbb".to_string(), "ccc".to_string()];
    assert_eq!(find_panorama_index(&ids, &Some("bbb".to_string())), Some(1));
    assert_eq!(find_panorama_index(&ids, &Some("zzz".to_string())), None);
    assert_eq!(find_panorama_index(&ids, &None), Some(0));
    let empty: Vec<String> = Vec::new();
    assert_eq!(find_panorama_index(&empty, &None), None);
}
