//! The texture store capability: textures addressed by identifier.

use vstd::prelude::*;

use crate::image::Image;
use crate::rect::Rect;

verus! {

/// A named texture could not be served: the identifier is carried so the
/// caller learns which one.
#[derive(Debug)]
pub struct LoadTextureError {
    pub identifier: String,
}

impl LoadTextureError {
    pub fn new(identifier: &str) -> (e: LoadTextureError)
        ensures
            e.identifier@ == identifier@,
    {
        LoadTextureError { identifier: identifier.to_owned() }
    }
}

/// Get-by-identifier access to textures: the texture holding the pixels and
/// the rectangle of those pixels inside it, or a typed "not found" error.
/// Both the per-image texture manager and the finished atlas offer this
/// capability, so consumers need not care whether textures are atlased.
pub trait TextureStore {
    /// The rectangle each stored identifier resolves to.
    spec fn store_rects(&self) -> Map<Seq<char>, Rect>;

    /// The texture a stored identifier resolves into.
    spec fn store_texture(&self, identifier: Seq<char>) -> Image;

    /// The store's internal invariant; every constructor of an implementing
    /// type establishes it.
    spec fn store_inv(&self) -> bool;

    /// Look up an identifier: its texture and rectangle, or an error naming
    /// the identifier.
    fn get(&self, identifier: &str) -> (r: Result<(&Image, Rect), LoadTextureError>)
        requires
            self.store_inv(),
        ensures
            r is Ok <==> self.store_rects().contains_key(identifier@),
            r matches Ok(p) ==> *p.0 == self.store_texture(identifier@) && p.1
                == self.store_rects()[identifier@],
            r matches Err(e) ==> e.identifier@ == identifier@,
    ;
}

} // verus!
