use wraith::image::Image;
use wraith::image::PixelFormat;
use wraith::texture_manager::TextureManager;
use wraith::texture_store::LoadTextureError;
use wraith::texture_store::TextureStore;

fn plain_image(width: u32, height: u32) -> Image {
    Image::new(width, height, PixelFormat::Rgba8888)
}

#[test]
fn create_then_load_returns_the_image() {
    let mut manager = TextureManager::new();
    manager.create("tile", Some(plain_image(12, 5))).unwrap();
    let img = manager.load("tile").unwrap();
    assert_eq!(img.width, 12);
    assert_eq!(img.height, 5);
}

#[test]
fn load_of_unknown_identifier_fails() {
    let manager = TextureManager::new();
    let err = manager.load("nowhere").unwrap_err();
    assert_eq!(err.identifier, "nowhere");
}

#[test]
fn failed_create_names_identifier_and_leaves_cache_alone() {
    let mut manager = TextureManager::new();
    let err = manager.create("broken", None).unwrap_err();
    assert_eq!(err.identifier, "broken");
    assert!(manager.load("broken").is_err());
}

#[test]
fn create_retains_the_first_image() {
    let mut manager = TextureManager::new();
    manager.create("tile", Some(plain_image(3, 4))).unwrap();
    manager.create("tile", Some(plain_image(9, 9))).unwrap();
    let img = manager.load("tile").unwrap();
    assert_eq!((img.width, img.height), (3, 4));
}

#[test]
fn drop_releases_and_is_idempotent() {
    let mut manager = TextureManager::new();
    manager.create("tile", Some(plain_image(3, 4))).unwrap();
    manager.drop("tile".to_string());
    assert!(manager.load("tile").is_err());
    manager.drop("tile".to_string());
    assert!(manager.load("tile").is_err());
    manager.drop("never-there".to_string());
}

#[test]
fn manager_store_serves_full_image_rect() {
    let mut manager = TextureManager::new();
    manager.create("tile", Some(plain_image(6, 2))).unwrap();
    let (img, rect) = TextureStore::get(&manager, "tile").unwrap();
    assert_eq!((img.width, img.height), (6, 2));
    assert_eq!((rect.x, rect.y, rect.width, rect.height), (0, 0, 6, 2));
    let err: LoadTextureError = TextureStore::get(&manager, "gone").unwrap_err();
    assert_eq!(err.identifier, "gone");
}
