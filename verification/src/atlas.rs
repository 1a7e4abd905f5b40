//! The texture atlas: many source images composited into one texture, each
//! addressable by identifier, and the builder that packs and composites
//! them.

use vstd::prelude::*;

use crate::image::Image;
use crate::image::PixelFormat;
use crate::packing::grow_pack;
use crate::packing::lemma_grow_pack_area_infeasible;
use crate::packing::lemma_grow_pack_success;
use crate::packing::lemma_shelf_pack_props;
use crate::packing::pack_with_growth;
use crate::packing::placement_within;
use crate::packing::placements_disjoint;
use crate::packing::positions_of;
use crate::packing::size_models;
use crate::packing::valid_sizes;
use crate::packing::area_of_first;
use crate::rect::Rect;
use crate::table::index_of;
use crate::table::lemma_table_map_at;
use crate::table::lemma_table_map_contains;
use crate::table::table_map;
use crate::table::unique_ids;
use crate::texture_manager::TextureManager;
use crate::texture_store::LoadTextureError;
use crate::texture_store::TextureStore;

verus! {

/// Default maximum atlas dimensions.
pub const DEFAULT_MAX_SIZE: u32 = 4096;

/// The bin-growth loop starts from this size, clamped to the maximum.
pub const START_SIZE: u32 = 32;

/// An atlas build fails only because no bin up to the configured maximum
/// holds all requested rectangles.
#[derive(Clone, Copy, Debug, PartialEq, Eq, Structural)]
pub enum BuildError {
    PackingInfeasible,
}

/// Build configuration: maximum composite dimensions and pixel format.
#[derive(Clone, Copy, Debug, PartialEq, Eq, Structural)]
pub struct BuildOptions {
    pub max_width: u32,
    pub max_height: u32,
    pub format: PixelFormat,
}

impl Default for BuildOptions {
    /// 4096 by 4096 pixels at most, 32-bit RGBA.
    fn default() -> (o: BuildOptions)
        ensures
            o.max_width == DEFAULT_MAX_SIZE,
            o.max_height == DEFAULT_MAX_SIZE,
            o.format == PixelFormat::Rgba8888,
    {
        BuildOptions {
            max_width: DEFAULT_MAX_SIZE,
            max_height: DEFAULT_MAX_SIZE,
            format: PixelFormat::Rgba8888,
        }
    }
}

/// The starting bin dimension for a configured maximum: the default start,
/// clamped so it never exceeds the maximum.
pub open spec fn start_dim(max: int) -> int {
    if max < START_SIZE {
        max
    } else {
        START_SIZE as int
    }
}

/// The layout a build computes, as a function of the request sizes and the
/// options alone: the position of every request plus the composite
/// dimensions, or `None` when the build must fail.  Two builds over equal
/// requests and options therefore assign identical rectangles.
pub open spec fn atlas_layout(sizes: Seq<(int, int)>, options: BuildOptions) -> Option<
    (Seq<(int, int)>, int, int),
> {
    grow_pack(
        sizes,
        start_dim(options.max_width as int),
        start_dim(options.max_height as int),
        options.max_width as int,
        options.max_height as int,
    )
}

/// The finished artifact: one composite texture and the lookup table from
/// identifier to the sub-rectangle its pixels occupy.  Immutable once built.
#[derive(Debug)]
pub struct TextureAtlas {
    pub img: Image,
    pub rects: Vec<(String, Rect)>,
}

impl TextureAtlas {
    /// The lookup table as a map.
    pub open spec fn rect_map(&self) -> Map<Seq<char>, Rect> {
        table_map(self.rects@)
    }

    /// A well-formed atlas: identifiers are unique, every recorded rectangle
    /// lies inside the composite, and no two rectangles overlap.
    pub open spec fn wf(&self) -> bool {
        &&& self.img.wf()
        &&& unique_ids(self.rects@)
        &&& forall|k: int|
            0 <= k < self.rects@.len() ==> (#[trigger] self.rects@[k]).1.within(
                self.img.width as int,
                self.img.height as int,
            )
        &&& forall|j: int, k: int|
            0 <= j < k < self.rects@.len() ==> (#[trigger] self.rects@[j]).1.disjoint(
                (#[trigger] self.rects@[k]).1,
            )
    }

    /// The sub-rectangle recorded for `path`, or `None` when `path` was not
    /// packed into this atlas.
    pub fn get(&self, path: &str) -> (r: Option<&Rect>)
        requires
            self.wf(),
        ensures
            r is Some <==> self.rect_map().contains_key(path@),
            r matches Some(rect) ==> *rect == self.rect_map()[path@],
    {
        match index_of(&self.rects, path) {
            Some(i) => {
                proof {
                    lemma_table_map_at(self.rects@, i as int);
                }
                Some(&self.rects[i].1)
            },
            None => {
                proof {
                    lemma_table_map_contains(self.rects@, path@);
                }
                None
            },
        }
    }

    /// No overlap: two distinct identifiers of one atlas resolve to
    /// rectangles whose intersection is empty — no pixel position lies in
    /// both.
    pub proof fn lemma_no_overlap(&self, id1: Seq<char>, id2: Seq<char>)
        requires
            self.wf(),
            id1 != id2,
            self.rect_map().contains_key(id1),
            self.rect_map().contains_key(id2),
        ensures
            self.rect_map()[id1].disjoint(self.rect_map()[id2]),
            forall|px: int, py: int|
                !(#[trigger] self.rect_map()[id1].covers(px, py) && self.rect_map()[id2].covers(
                    px,
                    py,
                )),
    {
        lemma_table_map_contains(self.rects@, id1);
        lemma_table_map_contains(self.rects@, id2);
        let k1 = choose|k: int| 0 <= k < self.rects@.len() && (#[trigger] self.rects@[k]).0@ == id1;
        let k2 = choose|k: int| 0 <= k < self.rects@.len() && (#[trigger] self.rects@[k]).0@ == id2;
        lemma_table_map_at(self.rects@, k1);
        lemma_table_map_at(self.rects@, k2);
        if k1 < k2 {
            assert(self.rects@[k1].1.disjoint(self.rects@[k2].1));
        } else {
            assert(self.rects@[k2].1.disjoint(self.rects@[k1].1));
        }
    }

    /// Containment: every identifier of one atlas resolves to a rectangle
    /// inside `[0, W) x [0, H)`, where `W` and `H` are the composite's
    /// dimensions.
    pub proof fn lemma_containment(&self, id: Seq<char>)
        requires
            self.wf(),
            self.rect_map().contains_key(id),
        ensures
            self.rect_map()[id].within(self.img.width as int, self.img.height as int),
    {
        lemma_table_map_contains(self.rects@, id);
        let k = choose|k: int| 0 <= k < self.rects@.len() && (#[trigger] self.rects@[k]).0@ == id;
        lemma_table_map_at(self.rects@, k);
    }
}

impl TextureStore for TextureAtlas {
    /// The atlas serves exactly its recorded sub-rectangles.
    open spec fn store_rects(&self) -> Map<Seq<char>, Rect> {
        self.rect_map()
    }

    /// Every identifier resolves into the one composite texture.
    open spec fn store_texture(&self, identifier: Seq<char>) -> Image {
        self.img
    }

    open spec fn store_inv(&self) -> bool {
        self.wf()
    }

    fn get(&self, identifier: &str) -> (r: Result<(&Image, Rect), LoadTextureError>) {
        match index_of(&self.rects, identifier) {
            Some(i) => {
                proof {
                    lemma_table_map_at(self.rects@, i as int);
                }
                Ok((&self.img, self.rects[i].1))
            },
            None => {
                proof {
                    lemma_table_map_contains(self.rects@, identifier@);
                }
                Err(LoadTextureError::new(identifier))
            },
        }
    }
}

/// Collects placement requests — one per source image, at the image's own
/// pixel dimensions — together with the cache retaining those images, and
/// turns them into an atlas on `build`.
#[derive(Debug)]
pub struct TextureAtlasBuilder {
    pub rects: Vec<(String, (u32, u32))>,
    pub texture_manager: TextureManager,
}

impl TextureAtlasBuilder {
    /// The requested sizes, in request order.
    pub open spec fn request_sizes(&self) -> Seq<(int, int)> {
        self.rects@.map_values(|e: (String, (u32, u32))| (e.1.0 as int, e.1.1 as int))
    }

    /// A well-formed builder: request identifiers are unique, and each
    /// request's image is retained in the cache at exactly the requested
    /// dimensions.
    pub open spec fn wf(&self) -> bool {
        &&& self.texture_manager.wf()
        &&& unique_ids(self.rects@)
        &&& forall|k: int|
            0 <= k < self.rects@.len() ==> {
                let e = (#[trigger] self.rects@[k]);
                &&& self.texture_manager@.contains_key(e.0@)
                &&& self.texture_manager@[e.0@].wf()
                &&& self.texture_manager@[e.0@].width == e.1.0
                &&& self.texture_manager@[e.0@].height == e.1.1
            }
    }

    /// Register one placement request per file, at the native dimensions of
    /// the image the texture source yielded for it, retaining the images in
    /// a fresh cache.  A `None` image is a load failure: the first one
    /// aborts the whole construction, and the error names its identifier.
    #[verifier::loop_isolation(false)]
    pub fn from_files(files: Vec<(String, Option<Image>)>) -> (r: Result<
        TextureAtlasBuilder,
        LoadTextureError,
    >)
        requires
            unique_ids(files@),
            forall|k: int|
                0 <= k < files@.len() ==> ((#[trigger] files@[k]).1 matches Some(img)
                    ==> img.wf()),
        ensures
            r is Ok <==> (forall|k: int|
                0 <= k < files@.len() ==> (#[trigger] files@[k]).1 is Some),
            r matches Ok(b) ==> {
                &&& b.wf()
                &&& b.rects@.len() == files@.len()
                &&& forall|k: int|
                    0 <= k < files@.len() ==> {
                        let img = (#[trigger] files@[k]).1.unwrap();
                        b.rects@[k] == (files@[k].0, (img.width, img.height))
                    }
                &&& forall|k: int|
                    0 <= k < files@.len() ==> b.texture_manager@[(#[trigger] files@[k]).0@]
                        == files@[k].1.unwrap()
            },
            r matches Err(e) ==> exists|k: int|
                {
                    &&& 0 <= k < files@.len()
                    &&& (#[trigger] files@[k]).1 is None
                    &&& e.identifier@ == files@[k].0@
                    &&& forall|j: int| 0 <= j < k ==> files@[j].1 is Some
                },
    {
        let ghost all = files@;
        let mut files = files;
        let mut manager = TextureManager::new();
        let mut rects: Vec<(String, (u32, u32))> = Vec::new();
        let n = files.len();
        let mut i: usize = 0;
        while i < n
            invariant
                n == all.len(),
                0 <= i <= n,
                files@ == all.skip(i as int),
                unique_ids(all),
                forall|k: int|
                    0 <= k < all.len() ==> ((#[trigger] all[k]).1 matches Some(img) ==> img.wf()),
                forall|j: int| 0 <= j < i ==> (#[trigger] all[j]).1 is Some,
                manager.wf(),
                rects@.len() == i,
                forall|j: int|
                    0 <= j < i ==> {
                        let img = (#[trigger] all[j]).1.unwrap();
                        rects@[j] == (all[j].0, (img.width, img.height))
                    },
                forall|j: int|
                    0 <= j < i ==> manager@.contains_key((#[trigger] all[j]).0@) && manager@[all[j].0@]
                        == all[j].1.unwrap(),
                forall|id: Seq<char>|
                    #[trigger] manager@.contains_key(id) ==> exists|j: int|
                        0 <= j < i && (#[trigger] all[j]).0@ == id,
            decreases n - i,
        {
            let (id, maybe_img) = files.remove(0);
            proof {
                assert((id, maybe_img) == all[i as int]);
                assert(files@ =~= all.skip(i + 1));
            }
            match maybe_img {
                None => {
                    let err = LoadTextureError::new(id.as_str());
                    proof {
                        assert(all[i as int].1 is None && err.identifier@ == all[i as int].0@);
                    }
                    return Err(err);
                },
                Some(img) => {
                    let w = img.width;
                    let h = img.height;
                    proof {
                        if manager@.contains_key(id@) {
                            let j = choose|j: int| 0 <= j < i && (#[trigger] all[j]).0@ == id@;
                            assert(all[j].0@ == all[i as int].0@);
                            assert(false);
                        }
                    }
                    match manager.create(id.as_str(), Some(img)) {
                        Ok(_) => {},
                        Err(e) => {
                            proof {
                                assert(false);
                            }
                            return Err(e);
                        },
                    }
                    rects.push((id, (w, h)));
                },
            }
            i = i + 1;
        }
        proof {
            assert forall|j: int, k: int| 0 <= j < k < rects@.len() implies (#[trigger] rects@[j]).0@
                != (#[trigger] rects@[k]).0@ by {
                assert(rects@[j].0 == all[j].0 && rects@[k].0 == all[k].0);
            }
            assert forall|k: int|
                0 <= k < rects@.len() implies {
                let e = (#[trigger] rects@[k]);
                &&& manager@.contains_key(e.0@)
                &&& manager@[e.0@].wf()
                &&& manager@[e.0@].width == e.1.0
                &&& manager@[e.0@].height == e.1.1
            } by {
                assert((#[trigger] all[k]).1 is Some);
                assert(rects@[k] == (all[k].0, (all[k].1.unwrap().width, all[k].1.unwrap().height)));
                assert(manager@.contains_key(all[k].0@) && manager@[all[k].0@] == all[k].1.unwrap());
            }
        }
        Ok(TextureAtlasBuilder { rects, texture_manager: manager })
    }

    /// Build the atlas: pack all requests with adaptive bin growth, allocate
    /// a blank composite of the resulting size, copy every source image into
    /// its assigned rectangle unmodified, release each source right after
    /// its copy, and record the rectangle under the image's identifier.
    ///
    /// Succeeds exactly when `atlas_layout` has a layout for the request
    /// sizes; otherwise nothing is changed and the single packing failure is
    /// reported.  No partially built atlas ever escapes.
    #[verifier::loop_isolation(false)]
    pub fn build(&mut self, options: BuildOptions) -> (r: Result<TextureAtlas, BuildError>)
        requires
            old(self).wf(),
            1 <= options.max_width,
            1 <= options.max_height,
            options.max_width * options.max_height <= usize::MAX,
        ensures
            final(self).rects@ == old(self).rects@,
            r is Ok <==> atlas_layout(old(self).request_sizes(), options) is Some,
            r matches Err(e) ==> e == BuildError::PackingInfeasible && *final(self) == *old(self),
            r matches Ok(atlas) ==> ({
                let (ps, bw, bh) = atlas_layout(old(self).request_sizes(), options).unwrap();
                &&& atlas.wf()
                &&& atlas.img.width == bw
                &&& atlas.img.height == bh
                &&& atlas.img.format == options.format
                &&& atlas.rects@.len() == old(self).rects@.len()
                &&& forall|k: int|
                    0 <= k < old(self).rects@.len() ==> {
                        let e = (#[trigger] old(self).rects@[k]);
                        &&& atlas.rects@[k].0 == e.0
                        &&& atlas.rects@[k].1.x == ps[k].0
                        &&& atlas.rects@[k].1.y == ps[k].1
                        &&& atlas.rects@[k].1.width == e.1.0
                        &&& atlas.rects@[k].1.height == e.1.1
                    }
                &&& forall|k: int, dx: int, dy: int|
                    0 <= k < old(self).rects@.len() && 0 <= dx < old(self).rects@[k].1.0 && 0 <= dy
                        < old(self).rects@[k].1.1 ==> #[trigger] atlas.img.pixel_at(
                        ps[k].0 + dx,
                        ps[k].1 + dy,
                    ) == old(self).texture_manager@[old(self).rects@[k].0@].pixel_at(dx, dy)
                &&& forall|px: int, py: int|
                    0 <= px < bw && 0 <= py < bh && !(exists|k: int|
                        0 <= k < atlas.rects@.len() && (#[trigger] atlas.rects@[k]).1.covers(
                            px,
                            py,
                        )) ==> #[trigger] atlas.img.pixel_at(px, py) == 0
                &&& forall|k: int|
                    0 <= k < old(self).rects@.len() ==> !final(self).texture_manager@.contains_key(
                        (#[trigger] old(self).rects@[k]).0@,
                    )
            }),
    {
        let ghost reqs0 = self.rects@;
        let ghost tm0 = self.texture_manager@;
        let ghost models = self.request_sizes();
        let n = self.rects.len();

        // Phase one: an immutable snapshot of the request sizes.
        let mut sizes: Vec<(u32, u32)> = Vec::new();
        let mut i: usize = 0;
        while i < n
            invariant
                0 <= i <= n,
                sizes@.len() == i,
                forall|j: int| 0 <= j < i ==> sizes@[j] == (#[trigger] reqs0[j]).1,
            decreases n - i,
        {
            sizes.push(self.rects[i].1);
            i = i + 1;
        }
        proof {
            assert(size_models(sizes@) =~= models);
            assert forall|j: int| 0 <= j < models.len() implies 1 <= (#[trigger] models[j]).0 && 1
                <= models[j].1 by {
                assert(self.texture_manager@[reqs0[j].0@].wf());
            }
        }

        // Phase two: the growth loop of the rectangle packer.
        let start_w = if options.max_width < START_SIZE {
            options.max_width
        } else {
            START_SIZE
        };
        let start_h = if options.max_height < START_SIZE {
            options.max_height
        } else {
            START_SIZE
        };
        match pack_with_growth(&sizes, start_w, start_h, options.max_width, options.max_height) {
            None => Err(BuildError::PackingInfeasible),
            Some((placed, bin_w, bin_h)) => {
                let ghost ps = positions_of(placed@);
                proof {
                    lemma_grow_pack_success(
                        models,
                        start_w as int,
                        start_h as int,
                        options.max_width as int,
                        options.max_height as int,
                    );
                    lemma_shelf_pack_props(models, bin_w as int, bin_h as int);
                    assert(bin_w * bin_h <= usize::MAX) by (nonlinear_arith)
                        requires
                            1 <= bin_w <= options.max_width,
                            1 <= bin_h <= options.max_height,
                            options.max_width * options.max_height <= usize::MAX,
                    ;
                    assert forall|j: int| 0 <= j < n implies (#[trigger] ps[j]) == (
                        placed@[j].x as int,
                        placed@[j].y as int,
                    ) by {}
                }

                // Phase three: composite every source image into its
                // assigned rectangle, releasing it right after the copy.
                let mut surface = Image::new(bin_w, bin_h, options.format);
                let mut entries: Vec<(String, Rect)> = Vec::new();
                let mut k: usize = 0;
                while k < n
                    invariant
                        0 <= k <= n,
                        self.rects@ == reqs0,
                        self.texture_manager.wf(),
                        forall|j: int|
                            0 <= j < k ==> !self.texture_manager@.contains_key(
                                (#[trigger] reqs0[j]).0@,
                            ),
                        forall|j: int|
                            k <= j < n ==> self.texture_manager@.contains_key(
                                (#[trigger] reqs0[j]).0@,
                            ) && self.texture_manager@[reqs0[j].0@] == tm0[reqs0[j].0@],
                        surface.wf(),
                        surface.width == bin_w,
                        surface.height == bin_h,
                        surface.format == options.format,
                        entries@.len() == k,
                        forall|j: int|
                            0 <= j < k ==> (#[trigger] entries@[j]).0 == reqs0[j].0
                                && entries@[j].1 == placed@[j],
                        forall|j: int, dx: int, dy: int|
                            0 <= j < k && 0 <= dx < reqs0[j].1.0 && 0 <= dy < reqs0[j].1.1
                                ==> #[trigger] surface.pixel_at(
                                placed@[j].x + dx,
                                placed@[j].y + dy,
                            ) == tm0[reqs0[j].0@].pixel_at(dx, dy),
                        forall|px: int, py: int|
                            0 <= px < bin_w && 0 <= py < bin_h && !(exists|j: int|
                                0 <= j < k && (#[trigger] placed@[j]).covers(px, py))
                                ==> #[trigger] surface.pixel_at(px, py) == 0,
                    decreases n - k,
                {
                    let id = self.rects[k].0.clone();
                    let rect = placed[k];
                    proof {
                        assert(placement_within(models, ps, k as int, bin_w as int, bin_h as int));
                        assert(self.texture_manager@[id@].width == reqs0[k as int].1.0);
                    }
                    match self.texture_manager.load(id.as_str()) {
                        Ok(img) => {
                            surface.blit_from(img, rect.x, rect.y);
                        },
                        Err(_) => {
                            proof {
                                assert(false);
                            }
                            return Err(BuildError::PackingInfeasible);
                        },
                    }
                    proof {
                        let ghost surface_prev = surface;
                        assert forall|j: int, dx: int, dy: int|
                            0 <= j < k + 1 && 0 <= dx < reqs0[j].1.0 && 0 <= dy < reqs0[j].1.1
                                implies #[trigger] surface.pixel_at(
                                placed@[j].x + dx,
                                placed@[j].y + dy,
                            ) == tm0[reqs0[j].0@].pixel_at(dx, dy) by {
                            if j < k {
                                assert(placement_within(models, ps, j, bin_w as int, bin_h as int));
                                assert(placements_disjoint(models, ps, j, k as int));
                            }
                        }
                        assert forall|px: int, py: int|
                            0 <= px < bin_w && 0 <= py < bin_h && !(exists|j: int|
                                0 <= j < k + 1 && (#[trigger] placed@[j]).covers(px, py))
                                implies #[trigger] surface.pixel_at(px, py) == 0 by {
                            assert(!placed@[k as int].covers(px, py));
                        }
                    }
                    self.texture_manager.drop(id.clone());
                    entries.push((id, rect));
                    k = k + 1;
                }
                let atlas = TextureAtlas { img: surface, rects: entries };
                proof {
                    assert forall|j: int, l: int| 0 <= j < l < atlas.rects@.len() implies (
                    #[trigger] atlas.rects@[j]).0@ != (#[trigger] atlas.rects@[l]).0@ by {
                        assert(atlas.rects@[j].0 == reqs0[j].0 && atlas.rects@[l].0 == reqs0[l].0);
                    }
                    assert forall|j: int| 0 <= j < atlas.rects@.len() implies (
                    #[trigger] atlas.rects@[j]).1.within(
                        atlas.img.width as int,
                        atlas.img.height as int,
                    ) by {
                        assert(placement_within(models, ps, j, bin_w as int, bin_h as int));
                    }
                    assert forall|j: int, l: int| 0 <= j < l < atlas.rects@.len() implies (
                    #[trigger] atlas.rects@[j]).1.disjoint((#[trigger] atlas.rects@[l]).1) by {
                        assert(placements_disjoint(models, ps, j, l));
                    }
                    assert forall|px: int, py: int|
                        0 <= px < bin_w && 0 <= py < bin_h && !(exists|l: int|
                            0 <= l < atlas.rects@.len() && (#[trigger] atlas.rects@[l]).1.covers(
                                px,
                                py,
                            )) implies #[trigger] atlas.img.pixel_at(px, py) == 0 by {
                        if exists|j: int| 0 <= j < n && (#[trigger] placed@[j]).covers(px, py) {
                            let j = choose|j: int|
                                0 <= j < n && (#[trigger] placed@[j]).covers(px, py);
                            assert((atlas.rects@[j]).1.covers(px, py));
                            assert(false);
                        }
                    }
                }
                Ok(atlas)
            },
        }
    }
}

/// Two builds from the same request list, in the same order, with the same
/// options, produce identical rectangles and composite dimensions: the
/// layout is a function of the inputs and nothing else.
pub proof fn lemma_layout_deterministic(
    sizes1: Seq<(int, int)>,
    sizes2: Seq<(int, int)>,
    options1: BuildOptions,
    options2: BuildOptions,
)
    requires
        sizes1 == sizes2,
        options1 == options2,
    ensures
        atlas_layout(sizes1, options1) == atlas_layout(sizes2, options2),
{
}

/// Requests whose total area exceeds the maximum composite's area can never
/// be built: the layout is infeasible whatever the growth loop tries.
pub proof fn lemma_layout_area_infeasible(sizes: Seq<(int, int)>, options: BuildOptions)
    requires
        valid_sizes(sizes),
        1 <= options.max_width,
        1 <= options.max_height,
        area_of_first(sizes, sizes.len() as int) > options.max_width * options.max_height,
    ensures
        atlas_layout(sizes, options) is None,
{
    lemma_grow_pack_area_infeasible(
        sizes,
        start_dim(options.max_width as int),
        start_dim(options.max_height as int),
        options.max_width as int,
        options.max_height as int,
    );
}

} // verus!
