//! Core logic for a light-field quilt pipeline: parsing view indices out of
//! frame file names, bucketing frames from several source folders by view
//! index, ordering and grouping the consolidated frames into fixed-size grid
//! layouts, compositing each layout into one vertically flipped quilt raster,
//! and reporting progress through a sequence of job status events.

use vstd::prelude::*;

mod codec;
mod filter_util;
mod order;
mod parse;
mod progress;
mod quilt;
mod raster;
mod scan;
mod sorter;

verus! {

/// Fatal, per-stage failures of the quilt composer. Each aborts the whole
/// composition: partial quilts are never produced.
#[derive(Clone, Copy, Debug, PartialEq, Eq, Structural)]
pub enum QuiltError {
    /// A tile's dimensions differ from the first tile's.
    TileSizeMismatch,
    /// A tile's bytes could not be decoded as an image.
    TileDecode,
    /// The composed quilt could not be encoded as a PNG.
    PngEncode,
}

} // verus!

pub use codec::{decode_tile, encode_quilt};
pub use order::{lex_leq_bytes, sort_names};
pub use parse::{has_view_marker, parse_view_index, view_index_of};
pub use progress::{progress_sequence, QuiltJob, QuiltStatus, QuiltStatusState};
pub use quilt::{compose_quilt, plan_quilts, quilt_file_name, QuiltPlan};
pub use raster::Raster;
pub use scan::unwanted_files;
pub use sorter::{select_for_bucket, sort_plan};
