use vitric::render::{bloom_radius_px, check_emitter_count, check_light_count, check_occluder_count, check_viewport, emitter_seed, encode_png, fill, glyph_of, mix64, parse_color, parse_color_a};
use vitric::font::{load_font_bytes, unreadable_font};

#[test]
fn bloom_radius_is_resolution_proportional_with_floor() {
    assert_eq!(bloom_radius_px(64), 2, "小视口踩下限 2");
    assert_eq!(bloom_radius_px(180), 2);
    assert_eq!(bloom_radius_px(720), 8, "720/90 = 8");
    assert_eq!(bloom_radius_px(2160), 24, "4K 半径按比例放大");
}

#[test]
fn mix64_matches_splitmix_finalizer() {
    // SplitMix64 of state 0 (its first output for seed 0).
    assert_eq!(mix64(0), 0xE220_A839_7B1D_CDAF);
    assert_eq!(emitter_seed(0, 0), mix64(0));
    assert_eq!(emitter_seed(1, 2), mix64((1u64 << 32) | 2));
    assert_ne!(emitter_seed(3, 0), emitter_seed(4, 0));
}

#[test]
fn emitter_seed_decorrelates_neighbor_entities() {
    let a = emitter_seed(1, 1);
    let b = emitter_seed(2, 1);
    assert_ne!(a, b);
    assert_eq!(a, emitter_seed(1, 1));
}

#[test]
fn colors_parse_with_and_without_alpha() {
    assert_eq!(parse_color("#ff0000").unwrap(), [255, 0, 0, 255]);
    assert_eq!(parse_color("#0A0b0C").unwrap(), [10, 11, 12, 255]);
    assert_eq!(parse_color_a("#11223344").unwrap(), [0x11, 0x22, 0x33, 0x44]);
    assert_eq!(parse_color_a("#112233").unwrap(), [0x11, 0x22, 0x33, 255]);
    assert_eq!(
        parse_color("red").unwrap_err(),
        "颜色 \"red\" 格式不对。写法: \"#rrggbb\"，如红色 \"#ff0000\""
    );
    assert_eq!(parse_color("#12345").unwrap_err(), "颜色 \"#12345\" 必须是 6 位十六进制 \"#rrggbb\"");
    assert_eq!(parse_color("#11223344").unwrap_err(), "颜色 \"#11223344\" 必须是 6 位十六进制 \"#rrggbb\"");
    assert_eq!(
        parse_color_a("#1122334").unwrap_err(),
        "颜色 \"#1122334\" 必须是 6 位 \"#rrggbb\" 或 8 位 \"#rrggbbaa\" 十六进制"
    );
    assert!(parse_color("#gg0000").is_err());
}

#[test]
fn fill_paints_whole_pixels_only() {
    let mut buf = vec![0u8; 10];
    fill(&mut buf, [1, 2, 3, 4]);
    assert_eq!(buf, vec![1, 2, 3, 4, 1, 2, 3, 4, 0, 0]);
}

#[test]
fn glyphs_come_from_the_builtin_table() {
    assert_eq!(glyph_of('A'), font8x8::legacy::BASIC_LEGACY['A' as usize]);
    assert_eq!(glyph_of(' '), [0u8; 8]);
    assert_eq!(glyph_of('字'), [0xff; 8]);
}

#[test]
fn encoded_frame_has_png_magic_and_decodes_back() {
    let rgba = [10u8, 20, 30, 255, 40, 50, 60, 128];
    let png = encode_png(&rgba, 2, 1).unwrap();
    assert_eq!(&png[..8], &[0x89, b'P', b'N', b'G', 0x0D, 0x0A, 0x1A, 0x0A]);
    let back = vitric::assets::decode_png(&png).unwrap();
    assert_eq!(back.rgba, rgba.to_vec());
    let err = encode_png(&rgba, 3, 1).unwrap_err();
    assert!(err.starts_with("PNG 编码失败: "), "{err}");
}

#[test]
fn malformed_font_bytes_name_the_file() {
    match load_font_bytes("fonts/broken.ttf", vec![1, 2, 3, 4]) {
        Ok(_) => panic!("four bytes are no font"),
        Err(m) => assert_eq!(
            m,
            "字体 fonts/broken.ttf 不是合法的 TTF/OTF: InvalidFont。提示：换一个能正常打开的字体文件"
        ),
    }
}

#[test]
fn unreadable_font_names_the_file() {
    assert_eq!(
        unreadable_font("fonts/x.ttf", "not found"),
        "读取字体 fonts/x.ttf 失败: not found。清单 font 字段的路径相对项目根目录"
    );
}

#[test]
fn frame_size_and_scene_counts_are_bounded() {
    assert!(check_viewport(1, 4096).is_ok());
    assert_eq!(check_viewport(0, 10).unwrap_err(), "分辨率 0x10 不合法（1..=4096）");
    assert_eq!(check_viewport(4097, 10).unwrap_err(), "分辨率 4097x10 不合法（1..=4096）");
    assert!(check_light_count(64).is_ok());
    assert!(check_light_count(65).unwrap_err().starts_with("场上有 65 个光源（Light 组件），超过上限 64 盏"));
    assert!(check_occluder_count(256).is_ok());
    assert!(check_occluder_count(257).unwrap_err().starts_with("场上有 257 个遮光体"));
    assert!(check_emitter_count(64).is_ok());
    assert_eq!(
        check_emitter_count(65).unwrap_err(),
        "场上有 65 个发射器（Emitter 组件），超过上限 64 个。提示：删减/合并发射器"
    );
}
