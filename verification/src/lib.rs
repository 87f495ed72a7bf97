//! Street View panorama reconstruction: tile addressing, fetch-with-retry
//! policy, deterministic tile-to-panorama assembly, perspective view
//! extraction from an equirectangular raster, and black-border trimming.

mod assemble;
mod error;
mod fetch;
mod raster;
mod save;
mod search;
mod tiles;
mod trim;
mod urls;
pub mod views;

pub use assemble::assemble_tiles;
pub use error::{FailureKind, StreetViewError, SvResult};
pub use fetch::{
    collect_tile_results, decode_tile_image, retry_step, AttemptOutcome, RetryStep,
    DEFAULT_MAX_RETRIES, RETRY_DELAY_SECS,
};
pub use raster::Raster;
pub use save::{encode_panorama, ImageFormat, PanoramaSaveExt, SaveOptions};
pub use search::{find_panorama_index, parse_url};
pub use tiles::{
    check_zoom, get_width_and_height_from_zoom, iter_tile_info, Tile, TileInfo, TILE_HEIGHT,
    TILE_WIDTH,
};
pub use trim::{crop_bottom_and_right_black_border, BLACK_LUMINANCE_THRESHOLD};
pub use urls::{
    format_capture_date, format_u64, make_download_url, make_metadata_url, make_search_url,
    make_streetview_url,
};
pub use views::{extract_multiple_views, extract_view_from_panorama, Direction, ViewConfig};
