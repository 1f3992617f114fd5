//! The bounds that requests and stored values keep.
use vstd::prelude::*;

verus! {

/// The most characters of an Album name.
pub const ALBUM_NAME_MAX: usize = 120;

/// The most Photos that one request adds to an Album by name.
pub const ALBUM_ADD_MAX: usize = 100;

/// The most Photos of one identity-bearing Album request, and of an Album that
/// a checked request reorders.
pub const ALBUM_MEMBERSHIP_BATCH_MAX: usize = 100;

/// The most Photos that one request adds to an Album from a folder.
pub const MAXIMUM_FOLDER_ALBUM_PHOTOS: usize = 10_000;

/// The most Photos of one batch of decisions.
pub const PHOTO_STATE_BATCH_MAX: usize = 100;

/// The highest rating of a Photo.
pub const MAXIMUM_PHOTO_RATING: u8 = 5;

/// How long a settled Export and its artifact are retained, in seconds.
pub const EXPORT_RETENTION_SECONDS: u64 = 604_800;

/// The most bytes of an Export's artifact, which an unfinished Export reserves.
pub const MAXIMUM_EXPORT_BYTES: u64 = 2_147_483_648;

} // verus!
