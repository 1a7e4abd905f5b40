//! Texture atlas construction.
//!
//! A set of independently sized source images is packed into one composite
//! image (the atlas), and every source image is afterwards addressed by its
//! identifier, which yields the composite texture together with the
//! sub-rectangle the image occupies.  The packing itself is a shelf layout
//! driven by an adaptive bin-growth loop: a candidate bin starts small, is
//! doubled in each dimension (clamped to a configured maximum) whenever the
//! requests do not fit, and the build fails only once both dimensions have
//! reached the maximum.
//!
//! The crate proves the central layout properties: placed rectangles never
//! overlap, they lie inside the composite, they keep the dimensions of their
//! source images, and the whole layout is a function of the request list
//! alone.

pub mod atlas;
pub mod image;
pub mod packing;
pub mod rect;
pub mod table;
pub mod texture_manager;
pub mod texture_store;
pub mod util;
