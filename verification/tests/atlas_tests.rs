use wraith::atlas::BuildError;
use wraith::atlas::BuildOptions;
use wraith::atlas::TextureAtlasBuilder;
use wraith::image::Image;
use wraith::image::PixelFormat;
use wraith::texture_store::TextureStore;

/// An image whose pixel at (x, y) is `base + y * width + x`, so copies can
/// be traced back to their source.
fn make_image(width: u32, height: u32, base: u32) -> Image {
    let mut img = Image::new(width, height, PixelFormat::Rgba8888);
    for y in 0..height {
        for x in 0..width {
            img.set_pixel(x, y, base + y * width + x);
        }
    }
    img
}

fn named(id: &str, img: Image) -> (String, Option<Image>) {
    (id.to_string(), Some(img))
}

#[test]
fn three_images_pack_into_doubled_bin() {
    let files = vec![
        named("a", make_image(16, 16, 1000)),
        named("b", make_image(32, 16, 2000)),
        named("c", make_image(16, 32, 3000)),
    ];
    let mut builder = TextureAtlasBuilder::from_files(files).unwrap();
    let atlas = builder.build(BuildOptions::default()).unwrap();

    // 32x32 cannot hold 256 + 512 + 512 pixels, one doubling can.
    assert_eq!(atlas.img.width, 64);
    assert_eq!(atlas.img.height, 64);
    assert_eq!(atlas.img.format, PixelFormat::Rgba8888);

    let ra = *atlas.get("a").unwrap();
    let rb = *atlas.get("b").unwrap();
    let rc = *atlas.get("c").unwrap();
    assert_eq!((ra.width, ra.height), (16, 16));
    assert_eq!((rb.width, rb.height), (32, 16));
    assert_eq!((rc.width, rc.height), (16, 32));

    for (rect, other) in [(ra, rb), (ra, rc), (rb, rc)] {
        let disjoint = rect.x + rect.width <= other.x
            || other.x + other.width <= rect.x
            || rect.y + rect.height <= other.y
            || other.y + other.height <= rect.y;
        assert!(disjoint);
    }
    for rect in [ra, rb, rc] {
        assert!(rect.x + rect.width <= atlas.img.width);
        assert!(rect.y + rect.height <= atlas.img.height);
    }
}

#[test]
fn composited_pixels_match_sources() {
    let files = vec![
        named("a", make_image(16, 16, 1000)),
        named("b", make_image(32, 16, 2000)),
        named("c", make_image(16, 32, 3000)),
    ];
    let mut builder = TextureAtlasBuilder::from_files(files).unwrap();
    let atlas = builder.build(BuildOptions::default()).unwrap();

    for (id, w, h, base) in [("a", 16, 16, 1000u32), ("b", 32, 16, 2000), ("c", 16, 32, 3000)] {
        let rect = *atlas.get(id).unwrap();
        for dy in 0..h {
            for dx in 0..w {
                assert_eq!(atlas.img.pixel(rect.x + dx, rect.y + dy), base + dy * w + dx);
            }
        }
    }
    // The three rows of images leave the bottom of the 64x64 bin blank.
    assert_eq!(atlas.img.pixel(0, 63), 0);
    assert_eq!(atlas.img.pixel(63, 63), 0);
}

#[test]
fn oversized_request_is_infeasible() {
    let img = Image {
        width: 5000,
        height: 5000,
        format: PixelFormat::Rgba8888,
        pixels: vec![0; 5000 * 5000],
    };
    let mut builder =
        TextureAtlasBuilder::from_files(vec![("huge".to_string(), Some(img))]).unwrap();
    let err = builder.build(BuildOptions::default()).unwrap_err();
    assert_eq!(err, BuildError::PackingInfeasible);
}

#[test]
fn total_area_beyond_maximum_is_infeasible() {
    let a = Image {
        width: 3000,
        height: 3000,
        format: PixelFormat::Rgba8888,
        pixels: vec![0; 3000 * 3000],
    };
    let b = Image {
        width: 3000,
        height: 3000,
        format: PixelFormat::Rgba8888,
        pixels: vec![0; 3000 * 3000],
    };
    let files = vec![("a".to_string(), Some(a)), ("b".to_string(), Some(b))];
    let mut builder = TextureAtlasBuilder::from_files(files).unwrap();
    let err = builder.build(BuildOptions::default()).unwrap_err();
    assert_eq!(err, BuildError::PackingInfeasible);
}

#[test]
fn missing_identifier_is_not_found() {
    let files = vec![named("present", make_image(8, 8, 1))];
    let mut builder = TextureAtlasBuilder::from_files(files).unwrap();
    let atlas = builder.build(BuildOptions::default()).unwrap();

    assert!(atlas.get("absent").is_none());
    let err = TextureStore::get(&atlas, "absent").unwrap_err();
    assert_eq!(err.identifier, "absent");
    let (_, rect) = TextureStore::get(&atlas, "present").unwrap();
    assert_eq!((rect.width, rect.height), (8, 8));
}

#[test]
fn load_failure_names_second_identifier() {
    let files = vec![
        named("first", make_image(4, 4, 1)),
        ("second".to_string(), None),
        named("third", make_image(4, 4, 2)),
    ];
    let err = TextureAtlasBuilder::from_files(files).unwrap_err();
    assert_eq!(err.identifier, "second");
}

#[test]
fn small_unit_requests_stay_at_starting_bin() {
    let mut files = Vec::new();
    for i in 0..100 {
        files.push(named(&format!("u{}", i), make_image(1, 1, i)));
    }
    let mut builder = TextureAtlasBuilder::from_files(files).unwrap();
    let atlas = builder.build(BuildOptions::default()).unwrap();
    assert_eq!(atlas.img.width, 32);
    assert_eq!(atlas.img.height, 32);
}

#[test]
fn unit_requests_over_capacity_grow_the_bin() {
    let mut files = Vec::new();
    for i in 0..1025 {
        files.push(named(&format!("u{}", i), make_image(1, 1, i)));
    }
    let mut builder = TextureAtlasBuilder::from_files(files).unwrap();
    let atlas = builder.build(BuildOptions::default()).unwrap();
    // 1024 one-pixel images fill the 32x32 starting bin exactly; one more
    // forces a doubling.
    assert_eq!(atlas.img.width, 64);
    assert_eq!(atlas.img.height, 64);
}

#[test]
fn identical_builds_are_identical() {
    let make_files = || {
        vec![
            named("a", make_image(16, 16, 1000)),
            named("b", make_image(32, 16, 2000)),
            named("c", make_image(16, 32, 3000)),
        ]
    };
    let mut b1 = TextureAtlasBuilder::from_files(make_files()).unwrap();
    let mut b2 = TextureAtlasBuilder::from_files(make_files()).unwrap();
    let atlas1 = b1.build(BuildOptions::default()).unwrap();
    let atlas2 = b2.build(BuildOptions::default()).unwrap();
    assert_eq!(atlas1.img.width, atlas2.img.width);
    assert_eq!(atlas1.img.height, atlas2.img.height);
    assert_eq!(atlas1.rects, atlas2.rects);
}

#[test]
fn empty_build_yields_blank_starting_bin() {
    let mut builder = TextureAtlasBuilder::from_files(Vec::new()).unwrap();
    let atlas = builder.build(BuildOptions::default()).unwrap();
    assert_eq!(atlas.img.width, 32);
    assert_eq!(atlas.img.height, 32);
    assert!(atlas.get("anything").is_none());
    assert_eq!(atlas.img.pixel(0, 0), 0);
}

#[test]
fn small_maximum_is_respected() {
    let files = vec![named("a", make_image(8, 8, 7))];
    let mut builder = TextureAtlasBuilder::from_files(files).unwrap();
    let options = BuildOptions { max_width: 8, max_height: 8, format: PixelFormat::Argb8888 };
    let atlas = builder.build(options).unwrap();
    // The starting bin is clamped to the 8x8 maximum, which just fits.
    assert_eq!(atlas.img.width, 8);
    assert_eq!(atlas.img.height, 8);
    assert_eq!(atlas.img.format, PixelFormat::Argb8888);
}
