use raytracer::gamma::{linear_table, srgb_to_linear};
use raytracer::rtw_image::{clamp, LoadError, RtwImage};
use raytracer::texture::{checker_is_even, ImageTexture};

fn float_linear(b: u8) -> u8 {
    let linear = (b as f64 / 255.0).powf(2.2);
    (linear * 255.0).round().clamp(0.0, 255.0) as u8
}

#[test]
fn clamp_keeps_values_in_range() {
    assert_eq!(clamp(5, 0, 10), 5);
    assert_eq!(clamp(0, 0, 10), 0);
    assert_eq!(clamp(9, 0, 10), 9);
}

#[test]
fn clamp_moves_values_to_the_edges() {
    assert_eq!(clamp(10, 0, 10), 9);
    assert_eq!(clamp(4000, 0, 10), 9);
    assert_eq!(clamp(1, 3, 10), 3);
    assert_eq!(clamp(1, 3, 0), 3);
}

#[test]
fn linearization_matches_the_power_law_on_every_byte() {
    for b in 0..=255u8 {
        assert_eq!(srgb_to_linear(b), float_linear(b), "byte {}", b);
    }
}

#[test]
fn linearization_known_values() {
    assert_eq!(srgb_to_linear(0), 0);
    assert_eq!(srgb_to_linear(255), 255);
    assert_eq!(srgb_to_linear(128), 56);
    assert_eq!(srgb_to_linear(64), 12);
}

#[test]
fn linear_table_lists_every_byte() {
    let t = linear_table();
    assert_eq!(t.len(), 256);
    for b in 0..=255u8 {
        assert_eq!(t[b as usize], srgb_to_linear(b));
    }
}

#[test]
fn linearization_darkens_and_keeps_order() {
    let mut prev = 0u8;
    for b in 0..=255u8 {
        let r = srgb_to_linear(b);
        assert!(r <= b);
        assert!(r >= prev);
        prev = r;
    }
}

fn two_by_two() -> Vec<u8> {
    vec![
        0, 64, 128, 255, 255, 255, //
        10, 20, 30, 200, 100, 50,
    ]
}

#[test]
fn from_rgb8_reads_back_every_pixel() {
    let raw = two_by_two();
    let img = RtwImage::from_rgb8(2, 2, raw.clone()).unwrap();
    assert_eq!(img.width(), 2);
    assert_eq!(img.height(), 2);
    for y in 0..2u32 {
        for x in 0..2u32 {
            let i = 3 * (y as usize * 2 + x as usize);
            let expected: Vec<u8> = raw[i..i + 3].iter().map(|&b| srgb_to_linear(b)).collect();
            assert_eq!(img.pixel_data(x, y), expected.as_slice());
        }
    }
    assert_eq!(img.pixel_data(0, 0), &[0, 12, 56]);
}

#[test]
fn pixel_data_clamps_to_the_edge() {
    let img = RtwImage::from_rgb8(2, 2, two_by_two()).unwrap();
    assert_eq!(img.pixel_data(7, 0), img.pixel_data(1, 0));
    assert_eq!(img.pixel_data(0, 9), img.pixel_data(0, 1));
    assert_eq!(img.pixel_data(100, 100), img.pixel_data(1, 1));
}

#[test]
fn from_rgb8_rejects_a_wrong_layout() {
    assert_eq!(RtwImage::from_rgb8(2, 2, vec![0; 11]).err(), Some(LoadError::Layout));
    assert_eq!(RtwImage::from_rgb8(1, 1, vec![0; 4]).err(), Some(LoadError::Layout));
    assert!(RtwImage::from_rgb8(0, 5, vec![]).is_ok());
}

#[test]
fn empty_image_reads_magenta() {
    let img = RtwImage::empty();
    assert_eq!(img.width(), 0);
    assert_eq!(img.height(), 0);
    assert_eq!(img.pixel_data(0, 0), &[255, 0, 255]);
    assert_eq!(img.pixel_data(12, 3), &[255, 0, 255]);
}

fn encode_png(width: u32, height: u32, raw: Vec<u8>) -> Vec<u8> {
    let img = image::RgbImage::from_raw(width, height, raw).unwrap();
    let mut bytes = std::io::Cursor::new(Vec::new());
    img.write_to(&mut bytes, image::ImageFormat::Png).unwrap();
    bytes.into_inner()
}

#[test]
fn load_decodes_a_png_file() {
    let raw = two_by_two();
    let png = encode_png(2, 2, raw.clone());
    let img = RtwImage::load("texture.png", &png).unwrap();
    assert_eq!(img.width(), 2);
    assert_eq!(img.height(), 2);
    assert_eq!(img.pixel_data(1, 0), &[255, 255, 255]);
    assert_eq!(img.pixel_data(1, 1), &[srgb_to_linear(200), srgb_to_linear(100), srgb_to_linear(50)]);
}

#[test]
fn load_reports_decode_errors() {
    let png = encode_png(2, 2, two_by_two());
    assert_eq!(RtwImage::load("texture.unknown", &png).err(), Some(LoadError::Decode));
    assert_eq!(RtwImage::load("texture", &png).err(), Some(LoadError::Decode));
    assert_eq!(RtwImage::load("texture.png", &[1, 2, 3, 4]).err(), Some(LoadError::Decode));
}

#[test]
fn candidate_paths_without_a_directory() {
    let all: Vec<String> = (0..)
        .map_while(|k| RtwImage::candidate_path("earth.jpg", None, k))
        .collect();
    assert_eq!(
        all,
        vec![
            "earth.jpg",
            "images/earth.jpg",
            "../images/earth.jpg",
            "../../images/earth.jpg",
            "../../../images/earth.jpg",
            "../../../../images/earth.jpg",
            "../../../../../images/earth.jpg",
            "../../../../../../images/earth.jpg",
        ]
    );
}

#[test]
fn candidate_paths_with_a_directory() {
    assert_eq!(RtwImage::candidate_path("a.png", Some("/data"), 0).unwrap(), "/data/a.png");
    assert_eq!(RtwImage::candidate_path("a.png", Some("/data"), 1).unwrap(), "a.png");
    assert_eq!(RtwImage::candidate_path("a.png", Some("/data"), 8).unwrap(), "../../../../../../images/a.png");
    assert_eq!(RtwImage::candidate_path("a.png", Some("/data"), 9), None);
}

#[test]
fn image_texture_texels() {
    let tex = ImageTexture::new(RtwImage::from_rgb8(2, 2, two_by_two()).unwrap());
    assert_eq!(tex.texel(1, 0), Some(&[255u8, 255, 255][..]));
    assert_eq!(tex.texel(5, 5), Some(&[srgb_to_linear(200), srgb_to_linear(100), srgb_to_linear(50)][..]));
    assert_eq!(tex.image().width(), 2);
    assert_eq!(tex.image().pixel_data(0, 1), &[srgb_to_linear(10), srgb_to_linear(20), srgb_to_linear(30)]);
    let empty = ImageTexture::new(RtwImage::empty());
    assert_eq!(empty.texel(0, 0), None);
}

#[test]
fn image_texture_without_rows_but_with_width() {
    let flat = ImageTexture::new(RtwImage::from_rgb8(3, 0, vec![]).unwrap());
    assert_eq!(flat.texel(1, 1), None);
    let thin = ImageTexture::new(RtwImage::from_rgb8(0, 3, vec![]).unwrap());
    assert_eq!(thin.texel(1, 1), Some(&[255u8, 0, 255][..]));
}

#[test]
fn checkerboard_alternates() {
    assert!(checker_is_even(0, 0, 0));
    assert!(!checker_is_even(1, 0, 0));
    assert!(!checker_is_even(0, -1, 0));
    assert!(checker_is_even(-1, -1, 0));
    assert!(!checker_is_even(-3, 2, 2));
    assert!(checker_is_even(5, 5, -2));
}
