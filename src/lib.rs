//! The core of a tiled image viewer: decoded bitmaps cut into texture-sized
//! tiles, the quarter-turn orientation of the view, the fit-to-window scale,
//! the choice of decoder by file extension, and album navigation.

pub mod album;
pub mod decode;
pub mod raster;
pub mod session;
pub mod tiler;
pub mod view;

pub use album::{navigate, navigate_index, position_of, step_index, Direction};
pub use decode::{decode_strategy, is_supported_extension, DecodeStrategy};
pub use raster::{copy_rows, pack_heif_plane, pack_interleaved, RasterImage};
pub use session::{command_for_key, Command, Key, Session};
pub use tiler::{crop, tile_count, tile_image, tile_rects, Tile, TileRect};
pub use view::{fit_ratio, Rotation};
