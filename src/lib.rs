//! Discovery and classification of content assets in a game-engine project.
//!
//! The library works on a listing of directory entries that the caller has
//! gathered (the walk itself is file-system I/O); it filters the entries,
//! infers a category from naming conventions and derives the engine's
//! `/Game/...` reference path of each asset.
pub mod asset_path;
pub mod category;
pub mod scan;
pub mod text;
