use vitric::assets::{decode_png, is_normal_map_name, normal_map_name, Assets, Image};
use vitric::render::encode_png;

#[test]
fn normal_map_naming_pairs_and_excludes_n_files() {
    assert_eq!(normal_map_name("hero.png").as_deref(), Some("hero_n.png"));
    assert_eq!(normal_map_name("ui/icon.png").as_deref(), Some("ui/icon_n.png"));
    assert_eq!(normal_map_name("hero_n.png"), None);
    assert_eq!(normal_map_name("noext"), None);
    assert!(is_normal_map_name("hero_n.png"));
    assert!(is_normal_map_name("ui/icon_n.png"));
    assert!(!is_normal_map_name("hero.png"));
    assert!(!is_normal_map_name("ui/icon.png"));
    assert!(!is_normal_map_name("lantern.png"));
}

fn img(w: u32, h: u32, px: [u8; 4]) -> Image {
    Image { width: w, height: h, rgba: px.repeat((w * h) as usize) }
}

#[test]
fn store_keeps_names_in_order_and_reads_back() {
    let mut a: Assets<()> = Assets::with_root("assets");
    a.insert("ui/icon.png".to_string(), img(1, 1, [0, 255, 0, 255]));
    a.insert("coin.png".to_string(), img(2, 2, [255, 0, 0, 255]));
    assert_eq!(a.count(), 2);
    assert_eq!(a.names(), vec!["coin.png", "ui/icon.png"]);
    assert_eq!(a.image("coin.png").unwrap().width, 2);
    assert!(a.image("ghost.png").is_none());
    assert_eq!(a.total_bytes(), 16 + 4);
    // same name again: replaced, not duplicated
    a.insert("coin.png".to_string(), img(1, 1, [1, 2, 3, 4]));
    assert_eq!(a.count(), 2);
    assert_eq!(a.image("coin.png").unwrap().rgba, vec![1, 2, 3, 4]);
}

#[test]
fn normal_of_finds_paired_image_in_memory() {
    let mut a: Assets<()> = Assets::empty();
    a.insert("hero.png".to_string(), img(2, 2, [255, 0, 0, 255]));
    a.insert("hero_n.png".to_string(), img(2, 2, [128, 128, 255, 255]));
    a.insert("gem.png".to_string(), img(1, 1, [0, 255, 0, 255]));
    assert!(a.normal_of("hero.png").is_some());
    assert!(a.normal_of("gem.png").is_none());
    assert!(a.normal_of("hero_n.png").is_none());
    assert!(a.has_normal_maps());
    let mut b: Assets<()> = Assets::empty();
    b.insert("gem.png".to_string(), img(1, 1, [0, 255, 0, 255]));
    assert!(!b.has_normal_maps());
}

#[test]
fn reload_without_root_is_an_error_and_failed_reload_keeps_contents() {
    let mut a: Assets<()> = Assets::empty();
    assert_eq!(a.reload_root().unwrap_err(), "素材仓库没有目录，无法重载");
    a.insert("coin.png".to_string(), img(1, 1, [1, 1, 1, 1]));
    let mut stray: Assets<()> = Assets::with_root("assets");
    stray.insert("gem.png".to_string(), img(1, 1, [2, 2, 2, 2]));
    assert_eq!(a.reload(Ok(stray), None).unwrap_err(), "素材仓库没有目录，无法重载");
    assert_eq!(a.names(), vec!["coin.png"]);

    let mut b: Assets<()> = Assets::with_root("assets");
    b.insert("coin.png".to_string(), img(1, 1, [1, 1, 1, 1]));
    let r = b.reload(Err("boom".to_string()), None);
    assert_eq!(r.unwrap_err(), "boom");
    assert_eq!(b.count(), 1);
    let mut fresh: Assets<()> = Assets::with_root("assets");
    fresh.insert("gem.png".to_string(), img(1, 1, [2, 2, 2, 2]));
    b.reload(Ok(fresh), None).unwrap();
    assert_eq!(b.names(), vec!["gem.png"]);
    assert_eq!(b.reload_root().unwrap(), "assets");
}

#[test]
fn reload_reads_the_font_again_from_the_same_file() {
    let mut a: Assets<u32> = Assets::with_root("assets");
    a.load_font("fonts/main.ttf", Ok(7)).unwrap();
    assert_eq!(a.load_font("fonts/other.ttf", Err("bad".to_string())).unwrap_err(), "bad");
    assert_eq!(a.font_path(), Some("fonts/main.ttf"));
    let fresh: Assets<u32> = Assets::with_root("assets");
    assert_eq!(a.reload(Ok(fresh), Some(Err("font gone".to_string()))).unwrap_err(), "font gone");
    assert_eq!(a.font(), Some(&7));
    let fresh: Assets<u32> = Assets::with_root("assets");
    a.reload(Ok(fresh), Some(Ok(8))).unwrap();
    assert_eq!(a.font(), Some(&8));
    assert_eq!(a.font_path(), Some("fonts/main.ttf"));
    assert_eq!(a.reload_root().unwrap(), "assets");
}

#[test]
fn png_bytes_decode_into_the_store_and_corrupt_ones_name_the_file() {
    let rgba = [255u8, 0, 0, 255].repeat(4);
    let bytes = encode_png(&rgba, 2, 2).unwrap();
    let mut a: Assets<u32> = Assets::with_root("assets");
    a.insert_png("coin.png", &bytes).unwrap();
    let im = a.image("coin.png").unwrap();
    assert_eq!((im.width, im.height), (2, 2));
    assert_eq!(im.rgba, rgba);
    let err = a.insert_png("broken.png", b"not a png").unwrap_err();
    assert!(err.starts_with("素材 broken.png: PNG 解码失败: "), "{err}");
    assert_eq!(a.count(), 1);
    a.load_font("fonts/main.ttf", Ok(7)).unwrap();
    assert_eq!(a.font(), Some(&7));
    assert_eq!(a.font_path(), Some("fonts/main.ttf"));
}

#[test]
fn rgb_png_gains_opaque_alpha_and_oversize_is_refused() {
    let mut out = Vec::new();
    {
        let mut enc = png::Encoder::new(&mut out, 2, 1);
        enc.set_color(png::ColorType::Rgb);
        enc.set_depth(png::BitDepth::Eight);
        enc.write_header().unwrap().write_image_data(&[1, 2, 3, 4, 5, 6]).unwrap();
    }
    let im = decode_png(&out).unwrap();
    assert_eq!(im.rgba, vec![1, 2, 3, 255, 4, 5, 6, 255]);

    let big = vec![0u8; 2049 * 4];
    let bytes = encode_png(&big, 2049, 1).unwrap();
    let err = decode_png(&bytes).unwrap_err();
    assert_eq!(err, "尺寸 2049x1 超过上限 2048。提示：精灵图不需要这么大，缩小或切分它");

    let mut gray = Vec::new();
    {
        let mut enc = png::Encoder::new(&mut gray, 1, 1);
        enc.set_color(png::ColorType::Grayscale);
        enc.set_depth(png::BitDepth::Eight);
        enc.write_header().unwrap().write_image_data(&[9]).unwrap();
    }
    assert_eq!(
        decode_png(&gray).unwrap_err(),
        "颜色类型 Grayscale 不支持。提示：用 RGBA 或 RGB 的 PNG（带不带透明都行）"
    );
}

#[test]
fn listing_agrees_with_lookups_and_total_bytes() {
    let mut a: Assets<()> = Assets::with_root("assets");
    a.insert("ui/icon.png".to_string(), img(2, 1, [9, 9, 9, 9]));
    a.insert("coin.png".to_string(), img(1, 1, [1, 1, 1, 1]));
    a.insert("hero.png".to_string(), img(3, 2, [2, 2, 2, 2]));
    let names = a.names();
    assert_eq!(names, vec!["coin.png", "hero.png", "ui/icon.png"]);
    assert_eq!(names.len(), a.count());
    assert!(names.windows(2).all(|w| w[0] < w[1]));
    let sum: usize = names.iter().map(|n| a.image(n).unwrap().rgba.len()).sum();
    assert_eq!(a.total_bytes(), sum);
    assert_eq!(sum, 4 + 24 + 8);
}

#[test]
fn pairing_splits_at_the_dot_of_the_file_name() {
    assert_eq!(normal_map_name("a.b/c"), None);
    assert_eq!(normal_map_name("art.v2/hero.png").as_deref(), Some("art.v2/hero_n.png"));
    assert_eq!(normal_map_name("ui/icon.png").as_deref(), Some("ui/icon_n.png"));
    let paired = normal_map_name("art.v2/hero.png").unwrap();
    assert!(is_normal_map_name(&paired));
    assert_eq!(normal_map_name(&paired), None);
}
