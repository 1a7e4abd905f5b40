//! The image cache: source images retained by identifier until the atlas
//! build consumes them.

use vstd::prelude::*;

use crate::image::Image;
use crate::rect::Rect;
use crate::table::index_of;
use crate::table::lemma_table_map_at;
use crate::table::lemma_table_map_contains;
use crate::table::lemma_table_map_push;
use crate::table::lemma_table_map_remove;
use crate::table::table_map;
use crate::table::unique_ids;
use crate::texture_store::LoadTextureError;
use crate::texture_store::TextureStore;

verus! {

/// Retains loaded images by identifier.  An image is acquired once, kept
/// until it is explicitly released, and never silently replaced.
#[derive(Debug)]
pub struct TextureManager {
    cache: Vec<(String, Image)>,
}

impl View for TextureManager {
    type V = Map<Seq<char>, Image>;

    /// The cache as a map from identifier to the retained image.
    closed spec fn view(&self) -> Map<Seq<char>, Image> {
        table_map(self.cache@)
    }
}

impl TextureManager {
    /// Each identifier is retained at most once.
    pub closed spec fn wf(&self) -> bool {
        unique_ids(self.cache@)
    }

    /// An empty cache.
    pub fn new() -> (m: TextureManager)
        ensures
            m@ == Map::<Seq<char>, Image>::empty(),
            m.wf(),
    {
        TextureManager { cache: Vec::new() }
    }

    /// Enter the image the texture source yielded for `path` into the cache.
    /// A `None` image stands for a failed acquisition: the error names the
    /// identifier and the cache is left exactly as it was — no partially
    /// inserted entry remains.  An identifier already retained is kept as it
    /// is: one resource per identifier.
    pub fn create(&mut self, path: &str, image: Option<Image>) -> (r: Result<(), LoadTextureError>)
        requires
            old(self).wf(),
        ensures
            final(self).wf(),
            image matches Some(img) ==> r is Ok && final(self)@ == (if old(self)@.contains_key(
                path@,
            ) {
                old(self)@
            } else {
                old(self)@.insert(path@, img)
            }),
            image is None ==> final(self)@ == old(self)@ && (r matches Err(e) && e.identifier@
                == path@),
    {
        match image {
            None => Err(LoadTextureError::new(path)),
            Some(img) => {
                match index_of(&self.cache, path) {
                    Some(_) => {
                        proof {
                            lemma_table_map_contains(self.cache@, path@);
                        }
                        Ok(())
                    },
                    None => {
                        proof {
                            lemma_table_map_contains(self.cache@, path@);
                        }
                        let ghost entries0 = self.cache@;
                        let owned: String = path.to_owned();
                        self.cache.push((owned, img));
                        proof {
                            lemma_table_map_push(entries0, self.cache@.last().0, img);
                            assert(self.cache@.drop_last() =~= entries0);
                        }
                        Ok(())
                    },
                }
            },
        }
    }

    /// Read access to a retained image, without re-reading any source:
    /// the image for `path`, or an error naming `path` when it is not
    /// retained.
    pub fn load(&self, path: &str) -> (r: Result<&Image, LoadTextureError>)
        requires
            self.wf(),
        ensures
            r is Ok <==> self@.contains_key(path@),
            r matches Ok(img) ==> *img == self@[path@],
            r matches Err(e) ==> e.identifier@ == path@,
    {
        match index_of(&self.cache, path) {
            Some(i) => {
                proof {
                    lemma_table_map_at(self.cache@, i as int);
                }
                Ok(&self.cache[i].1)
            },
            None => {
                proof {
                    lemma_table_map_contains(self.cache@, path@);
                }
                Err(LoadTextureError::new(path))
            },
        }
    }

    /// Release the resource retained for `key` and forget the entry.  An
    /// identifier that is not retained is a no-op, so the call is idempotent.
    pub fn drop(&mut self, key: String)
        requires
            old(self).wf(),
        ensures
            final(self).wf(),
            final(self)@ == old(self)@.remove(key@),
    {
        match index_of(&self.cache, key.as_str()) {
            Some(i) => {
                proof {
                    lemma_table_map_remove(self.cache@, i as int);
                }
                self.cache.remove(i);
            },
            None => {
                proof {
                    lemma_table_map_contains(self.cache@, key@);
                    assert(old(self)@.remove(key@) =~= old(self)@);
                }
            },
        }
    }
}

impl TextureStore for TextureManager {
    /// The lookup table the cache offers: each retained identifier resolves
    /// to the full extent of its own image.
    open spec fn store_rects(&self) -> Map<Seq<char>, Rect> {
        Map::new(
            |id: Seq<char>| self@.contains_key(id),
            |id: Seq<char>|
                Rect { x: 0, y: 0, width: self@[id].width, height: self@[id].height },
        )
    }

    /// Each retained identifier resolves into its own image.
    open spec fn store_texture(&self, identifier: Seq<char>) -> Image {
        self@[identifier]
    }

    open spec fn store_inv(&self) -> bool {
        self.wf()
    }

    fn get(&self, identifier: &str) -> (r: Result<(&Image, Rect), LoadTextureError>) {
        match self.load(identifier) {
            Ok(img) => {
                let rect = Rect::new(0, 0, img.width, img.height);
                Ok((img, rect))
            },
            Err(e) => Err(e),
        }
    }
}

} // verus!
