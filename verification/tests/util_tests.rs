use wraith::util::color::decode_hex;
use wraith::util::color::encode_hex;
use wraith::util::color::HsvColor;
use wraith::util::color::RgbColor;
use wraith::util::tilemap::TileMap;

#[test]
fn decode_hex_reads_digit_pairs() {
    assert_eq!(decode_hex("0aff"), Some(vec![0x0a, 0xff]));
    assert_eq!(decode_hex("00"), Some(vec![0x00]));
    assert_eq!(decode_hex(""), Some(vec![]));
    assert_eq!(decode_hex("DEadBEef"), Some(vec![0xde, 0xad, 0xbe, 0xef]));
}

#[test]
fn decode_hex_rejects_bad_input() {
    assert_eq!(decode_hex("abc"), None);
    assert_eq!(decode_hex("0g"), None);
    assert_eq!(decode_hex("##"), None);
}

#[test]
fn encode_hex_writes_two_digits_per_byte() {
    assert_eq!(encode_hex(&[0x1a, 0xb2]).as_str(), "1ab2");
    assert_eq!(encode_hex(&[]).as_str(), "");
    assert_eq!(encode_hex(&[0, 255]).as_str(), "00ff");
}

#[test]
fn color_hex_round_trip() {
    let c = RgbColor::new(255, 0, 171);
    let hex = c.to_hex();
    assert_eq!(hex.as_str(), "#ff00ab");
    let back = RgbColor::from_hex(hex.as_str());
    assert_eq!((back.r, back.g, back.b), (255, 0, 171));
}

#[test]
fn from_hex_reads_channels() {
    let c = RgbColor::from_hex("#102030");
    assert_eq!((c.r, c.g, c.b), (0x10, 0x20, 0x30));
}

#[test]
fn hsv_primary_hues() {
    let red = HsvColor::new(0, 255, 255).to_rgb();
    assert_eq!((red.r, red.g, red.b), (255, 0, 0));
    let green = HsvColor::new(85, 255, 255).to_rgb();
    assert_eq!((green.r, green.g, green.b), (0, 255, 0));
    let grey = HsvColor::new(123, 0, 128).to_rgb();
    assert_eq!((grey.r, grey.g, grey.b), (128, 128, 128));
}

#[test]
fn tilemap_cells_start_blank_and_update() {
    let mut tiles = TileMap::new(4, 3);
    assert_eq!(tiles.get_width(), 4);
    assert_eq!(tiles.get_height(), 3);
    assert_eq!(tiles.get_cell(0, 0), 0);
    assert_eq!(tiles.get_cell(3, 2), 0);
    tiles.set_cell(2, 1, 7);
    assert_eq!(tiles.get_cell(2, 1), 7);
    assert_eq!(tiles.get_cell(1, 2), 0);
    assert_eq!(tiles.get_cell(2, 2), 0);
}
