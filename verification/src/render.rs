//! The integer side of the renderer: frame-size and scene-count limits, colour texts, buffer fill, the bloom radius, the
//! decoration-layer hash, the built-in bitmap font, PNG encoding of a frame, and the glyph
//! bitmap a vector font hands back. (Shading, blur and layout are floating point and live with
//! the renderer-side code.)
use vstd::prelude::*;
use crate::text::{chars_of, debug_quote, debug_quoted, decimal, digit_value, push_decimal, push_str};

verus! {

/// Most point lights a scene may hold (every pixel visits every light).
pub const MAX_LIGHTS: usize = 64;

/// Most occluders a scene may hold while shadows are on.
pub const MAX_OCCLUDERS: usize = 256;

/// Most particle emitters a scene may hold.
pub const MAX_EMITTERS: usize = 64;

/// The refusal of a frame size outside 1..=4096 on either side.
pub open spec fn bad_viewport_message(width: u32, height: u32) -> Seq<char> {
    "分辨率 "@ + decimal(width as nat) + "x"@ + decimal(height as nat) + " 不合法（1..=4096）"@
}

/// A frame size must be 1..=4096 pixels on each side.
pub fn check_viewport(width: u32, height: u32) -> (r: Result<(), String>)
    ensures
        (1 <= width <= 4096 && 1 <= height <= 4096) ==> r is Ok,
        !(1 <= width <= 4096 && 1 <= height <= 4096) ==> (r matches Err(m) && m@ == bad_viewport_message(width, height)),
{
    if width == 0 || height == 0 || width > 4096 || height > 4096 {
        let mut m = String::from_str("分辨率 ");
        push_decimal(&mut m, width as u64);
        push_str(&mut m, "x");
        push_decimal(&mut m, height as u64);
        push_str(&mut m, " 不合法（1..=4096）");
        return Err(m);
    }
    Ok(())
}

/// The refusal of a scene with more lights than [`MAX_LIGHTS`].
pub open spec fn too_many_lights_message(n: nat) -> Seq<char> {
    "场上有 "@ + decimal(n) + " 个光源（Light 组件），超过上限 64 盏（三种 kind 合计）。提示：删减/合并灯，大面积照亮改用调亮 Ambient.color 或一盏平行光"@
}

/// The refusal of a scene with more occluders than [`MAX_OCCLUDERS`].
pub open spec fn too_many_occluders_message(n: nat) -> Seq<char> {
    "场上有 "@ + decimal(n) + " 个遮光体（Solid+Position+Collider），超过投影上限 256 个。提示：合并相邻的 Solid（一面长墙一个实体），或关掉 Ambient.shadows"@
}

/// The refusal of a scene with more emitters than [`MAX_EMITTERS`].
pub open spec fn too_many_emitters_message(n: nat) -> Seq<char> {
    "场上有 "@ + decimal(n) + " 个发射器（Emitter 组件），超过上限 64 个。提示：删减/合并发射器"@
}

fn count_refusal(before: &str, n: usize, after: &str) -> (m: String)
    ensures
        m@ == before@ + decimal(n as nat) + after@,
{
    let mut m = String::from_str(before);
    push_decimal(&mut m, n as u64);
    push_str(&mut m, after);
    m
}

/// A scene's light count: at most [`MAX_LIGHTS`], else it is refused (never truncated).
pub fn check_light_count(n: usize) -> (r: Result<(), String>)
    ensures
        n <= MAX_LIGHTS ==> r is Ok,
        n > MAX_LIGHTS ==> (r matches Err(m) && m@ == too_many_lights_message(n as nat)),
{
    if n > MAX_LIGHTS {
        return Err(count_refusal("场上有 ", n,
            " 个光源（Light 组件），超过上限 64 盏（三种 kind 合计）。提示：删减/合并灯，大面积照亮改用调亮 Ambient.color 或一盏平行光"));
    }
    Ok(())
}

/// A scene's occluder count while shadows are on: at most [`MAX_OCCLUDERS`], else refused.
pub fn check_occluder_count(n: usize) -> (r: Result<(), String>)
    ensures
        n <= MAX_OCCLUDERS ==> r is Ok,
        n > MAX_OCCLUDERS ==> (r matches Err(m) && m@ == too_many_occluders_message(n as nat)),
{
    if n > MAX_OCCLUDERS {
        return Err(count_refusal("场上有 ", n,
            " 个遮光体（Solid+Position+Collider），超过投影上限 256 个。提示：合并相邻的 Solid（一面长墙一个实体），或关掉 Ambient.shadows"));
    }
    Ok(())
}

/// A scene's emitter count: at most [`MAX_EMITTERS`], else refused.
pub fn check_emitter_count(n: usize) -> (r: Result<(), String>)
    ensures
        n <= MAX_EMITTERS ==> r is Ok,
        n > MAX_EMITTERS ==> (r matches Err(m) && m@ == too_many_emitters_message(n as nat)),
{
    if n > MAX_EMITTERS {
        return Err(count_refusal("场上有 ", n, " 个发射器（Emitter 组件），超过上限 64 个。提示：删减/合并发射器"));
    }
    Ok(())
}

/// Bloom blur radius in pixels: viewport height / 90, at least 2.
pub fn bloom_radius_px(viewport_h: u32) -> (r: u32)
    ensures
        r == if viewport_h / 90 >= 2 { viewport_h / 90 } else { 2 },
{
    let r = viewport_h / 90;
    if r >= 2 { r } else { 2 }
}

/// SplitMix64's final mixer.
pub open spec fn mix64_spec(z: u64) -> u64 {
    let a = vstd::wrapping::u64_specs::wrapping_add(z, 0x9E37_79B9_7F4A_7C15u64);
    let b = vstd::wrapping::u64_specs::wrapping_mul(a ^ (a >> 30u64), 0xBF58_476D_1CE4_E5B9u64);
    let c = vstd::wrapping::u64_specs::wrapping_mul(b ^ (b >> 27u64), 0x94D0_49BB_1331_11EBu64);
    c ^ (c >> 31u64)
}

/// SplitMix64's final mixer: the stateless hash of the decoration layer (particles, shake).
pub fn mix64(z: u64) -> (r: u64)
    ensures
        r == mix64_spec(z),
{
    let a = z.wrapping_add(0x9E37_79B9_7F4A_7C15u64);
    let b = (a ^ (a >> 30u64)).wrapping_mul(0xBF58_476D_1CE4_E5B9u64);
    let c = (b ^ (b >> 27u64)).wrapping_mul(0x94D0_49BB_1331_11EBu64);
    c ^ (c >> 31u64)
}

/// The hash seed of an emitter entity: its slot index and generation packed into 64 bits, then
/// mixed.
pub fn emitter_seed(index: u32, generation: u32) -> (r: u64)
    ensures
        r == mix64_spec(((index as u64) << 32u64) | (generation as u64)),
{
    mix64(((index as u64) << 32u64) | (generation as u64))
}

// ---- colours ----

/// Whether every character is an ASCII hex digit.
pub open spec fn all_hex(t: Seq<char>) -> bool {
    forall|i: int| 0 <= i < t.len() ==> (#[trigger] digit_value(t[i], 16)) is Some
}

/// The byte spelled by the two hex digits at `i`.
pub open spec fn hex_byte(t: Seq<char>, i: int) -> u8 {
    (digit_value(t[i], 16)->0 * 16 + digit_value(t[i + 1], 16)->0) as u8
}

/// `#rrggbb` as opaque RGBA, or the error text.
pub open spec fn color_spec(s: Seq<char>) -> Result<Seq<u8>, Seq<char>> {
    if s.len() == 0 || s[0] != '#' {
        Err("颜色 "@ + debug_quoted(s) + " 格式不对。写法: \"#rrggbb\"，如红色 \"#ff0000\""@)
    } else {
        let t = s.drop_first();
        if t.len() != 6 || !all_hex(t) {
            Err("颜色 "@ + debug_quoted(s) + " 必须是 6 位十六进制 \"#rrggbb\""@)
        } else {
            Ok(seq![hex_byte(t, 0), hex_byte(t, 2), hex_byte(t, 4), 255u8])
        }
    }
}

/// `#rrggbb` (opaque) or `#rrggbbaa` as RGBA, or the error text.
pub open spec fn color_a_spec(s: Seq<char>) -> Result<Seq<u8>, Seq<char>> {
    if s.len() == 0 || s[0] != '#' {
        Err("颜色 "@ + debug_quoted(s) + " 格式不对。写法: \"#rrggbb\" 或带透明度 \"#rrggbbaa\""@)
    } else {
        let t = s.drop_first();
        if (t.len() != 6 && t.len() != 8) || !all_hex(t) {
            Err("颜色 "@ + debug_quoted(s) + " 必须是 6 位 \"#rrggbb\" 或 8 位 \"#rrggbbaa\" 十六进制"@)
        } else {
            Ok(seq![hex_byte(t, 0), hex_byte(t, 2), hex_byte(t, 4), if t.len() == 8 { hex_byte(t, 6) } else { 255u8 }])
        }
    }
}

fn hex_digit(c: char) -> (r: Option<u8>)
    ensures
        match r {
            Some(v) => digit_value(c, 16) == Some(v as nat),
            None => digit_value(c, 16) is None,
        },
{
    if '0' <= c && c <= '9' {
        Some((c as u32 - '0' as u32) as u8)
    } else if 'a' <= c && c <= 'f' {
        Some((c as u32 - 'a' as u32) as u8 + 10)
    } else if 'A' <= c && c <= 'F' {
        Some((c as u32 - 'A' as u32) as u8 + 10)
    } else {
        proof {
            if 'a' <= c <= 'z' {
                assert(c as int - 'a' as int + 10 >= 16);
            }
            if 'A' <= c <= 'Z' {
                assert(c as int - 'A' as int + 10 >= 16);
            }
        }
        None
    }
}

/// The hex digit values of `t`, when all of its characters are hex digits.
fn hex_values(t: &Vec<char>) -> (r: Option<Vec<u8>>)
    ensures
        match r {
            Some(v) => all_hex(t@) && v@.len() == t@.len()
                && forall|i: int| 0 <= i < t@.len() ==> digit_value(t@[i], 16) == Some(#[trigger] v@[i] as nat),
            None => !all_hex(t@),
        },
{
    let mut v: Vec<u8> = Vec::new();
    let mut i: usize = 0;
    while i < t.len()
        invariant
            i <= t@.len(),
            v@.len() == i,
            forall|k: int| 0 <= k < i ==> digit_value(t@[k], 16) == Some(#[trigger] v@[k] as nat),
        decreases t@.len() - i,
    {
        match hex_digit(t[i]) {
            None => {
                assert(digit_value(t@[i as int], 16) is None);
                return None;
            },
            Some(d) => v.push(d),
        }
        i += 1;
    }
    assert forall|k: int| 0 <= k < t@.len() implies (#[trigger] digit_value(t@[k], 16)) is Some by {
        assert(digit_value(t@[k], 16) == Some(v@[k] as nat));
    }
    Some(v)
}

fn byte_of(hi: u8, lo: u8) -> (b: u8)
    requires
        hi < 16,
        lo < 16,
    ensures
        b == (hi * 16 + lo) as u8,
{
    hi * 16 + lo
}

fn color_error(s: &str, before: &str, after: &str) -> (e: String)
    ensures
        e@ == before@ + debug_quoted(s@) + after@,
{
    let mut e = String::from_str(before);
    let q = debug_quote(s);
    push_str(&mut e, q.as_str());
    push_str(&mut e, after);
    e
}

/// Parse `#rrggbb` into opaque RGBA (see [`color_spec`]).
pub fn parse_color(s: &str) -> (r: Result<[u8; 4], String>)
    ensures
        match color_spec(s@) {
            Ok(c) => r matches Ok(a) && a@ == c,
            Err(m) => r matches Err(e) && e@ == m,
        },
{
    let cs = chars_of(s);
    if cs.len() == 0 || cs[0] != '#' {
        return Err(color_error(s, "颜色 ", " 格式不对。写法: \"#rrggbb\"，如红色 \"#ff0000\""));
    }
    let mut t: Vec<char> = Vec::new();
    let mut k: usize = 1;
    while k < cs.len()
        invariant
            1 <= k <= cs@.len(),
            t@ == cs@.subrange(1, k as int),
        decreases cs@.len() - k,
    {
        t.push(cs[k]);
        k += 1;
    }
    proof { assert(t@ =~= s@.drop_first()); }
    if t.len() != 6 {
        return Err(color_error(s, "颜色 ", " 必须是 6 位十六进制 \"#rrggbb\""));
    }
    match hex_values(&t) {
        None => Err(color_error(s, "颜色 ", " 必须是 6 位十六进制 \"#rrggbb\"")),
        Some(v) => {
            let a = [byte_of(v[0], v[1]), byte_of(v[2], v[3]), byte_of(v[4], v[5]), 255u8];
            proof {
                assert(a@ =~= seq![hex_byte(t@, 0), hex_byte(t@, 2), hex_byte(t@, 4), 255u8]);
            }
            Ok(a)
        },
    }
}

/// Parse `#rrggbb` (opaque) or `#rrggbbaa` into RGBA (see [`color_a_spec`]).
pub fn parse_color_a(s: &str) -> (r: Result<[u8; 4], String>)
    ensures
        match color_a_spec(s@) {
            Ok(c) => r matches Ok(a) && a@ == c,
            Err(m) => r matches Err(e) && e@ == m,
        },
{
    let cs = chars_of(s);
    if cs.len() == 0 || cs[0] != '#' {
        return Err(color_error(s, "颜色 ", " 格式不对。写法: \"#rrggbb\" 或带透明度 \"#rrggbbaa\""));
    }
    let mut t: Vec<char> = Vec::new();
    let mut k: usize = 1;
    while k < cs.len()
        invariant
            1 <= k <= cs@.len(),
            t@ == cs@.subrange(1, k as int),
        decreases cs@.len() - k,
    {
        t.push(cs[k]);
        k += 1;
    }
    proof { assert(t@ =~= s@.drop_first()); }
    if t.len() != 6 && t.len() != 8 {
        return Err(color_error(s, "颜色 ", " 必须是 6 位 \"#rrggbb\" 或 8 位 \"#rrggbbaa\" 十六进制"));
    }
    match hex_values(&t) {
        None => Err(color_error(s, "颜色 ", " 必须是 6 位 \"#rrggbb\" 或 8 位 \"#rrggbbaa\" 十六进制")),
        Some(v) => {
            let alpha = if t.len() == 8 { byte_of(v[6], v[7]) } else { 255u8 };
            let a = [byte_of(v[0], v[1]), byte_of(v[2], v[3]), byte_of(v[4], v[5]), alpha];
            proof {
                assert(a@ =~= seq![hex_byte(t@, 0), hex_byte(t@, 2), hex_byte(t@, 4),
                    if t@.len() == 8 { hex_byte(t@, 6) } else { 255u8 }]);
            }
            Ok(a)
        },
    }
}

/// Paint every whole pixel of an RGBA buffer with one colour (a trailing partial pixel is left
/// as it was).
pub fn fill(buf: &mut Vec<u8>, rgba: [u8; 4])
    ensures
        final(buf)@.len() == old(buf)@.len(),
        forall|i: int| 0 <= i < old(buf)@.len() / 4 * 4 ==> #[trigger] final(buf)@[i] == rgba@[i % 4],
        forall|i: int| old(buf)@.len() / 4 * 4 <= i < old(buf)@.len() ==> #[trigger] final(buf)@[i] == old(buf)@[i],
{
    let n = buf.len() / 4;
    let mut p: usize = 0;
    while p < n
        invariant
            n == old(buf)@.len() / 4,
            old(buf)@.len() <= usize::MAX,
            buf@.len() == old(buf)@.len(),
            p <= n,
            forall|i: int| 0 <= i < p * 4 ==> #[trigger] buf@[i] == rgba@[i % 4],
            forall|i: int| p * 4 <= i < old(buf)@.len() ==> #[trigger] buf@[i] == old(buf)@[i],
        decreases n - p,
    {
        assert(4 * p + 4 <= buf@.len()) by (nonlinear_arith)
            requires
                p < n,
                n == buf@.len() / 4,
        ;
        let base = 4 * p;
        buf.set(base, rgba[0]);
        buf.set(base + 1, rgba[1]);
        buf.set(base + 2, rgba[2]);
        buf.set(base + 3, rgba[3]);
        proof {
            assert forall|i: int| 0 <= i < (p + 1) * 4 implies #[trigger] buf@[i] == rgba@[i % 4] by {
                if i >= p * 4 {
                    assert(i % 4 == i - p * 4) by (nonlinear_arith)
                        requires
                            p * 4 <= i < p * 4 + 4,
                    ;
                }
            }
        }
        p += 1;
    }
}

// ---- the built-in bitmap font ----

/// Row bitmaps (one byte per row, low bit leftmost) of the built-in 8x8 font for ASCII code `cp`.
pub uninterp spec fn legacy_glyph(cp: nat) -> Seq<u8>;

/// Reads `font8x8::legacy::BASIC_LEGACY[cp]`, the crate's 8x8 ASCII table (eight rows).
#[verifier::external_body]
fn legacy_rows(cp: usize) -> (r: [u8; 8])
    requires
        cp < 128,
    ensures
        r@ == legacy_glyph(cp as nat),
{
    font8x8::legacy::BASIC_LEGACY[cp]
}

/// The 8x8 bitmap of a character: the built-in table for ASCII, a solid block for anything else.
pub fn glyph_of(c: char) -> (r: [u8; 8])
    ensures
        (c as u32) < 128 ==> r@ == legacy_glyph(c as nat),
        (c as u32) >= 128 ==> r@ == seq![0xffu8, 0xffu8, 0xffu8, 0xffu8, 0xffu8, 0xffu8, 0xffu8, 0xffu8],
{
    let cp = c as u32;
    if cp < 128 {
        legacy_rows(cp as usize)
    } else {
        let r = [0xffu8, 0xffu8, 0xffu8, 0xffu8, 0xffu8, 0xffu8, 0xffu8, 0xffu8];
        assert(r@ =~= seq![0xffu8, 0xffu8, 0xffu8, 0xffu8, 0xffu8, 0xffu8, 0xffu8, 0xffu8]);
        r
    }
}

// ---- PNG encoding ----

/// The PNG file that the `png` encoder writes for an 8-bit RGBA frame, or its error message.
pub uninterp spec fn png_encoded(rgba: Seq<u8>, width: u32, height: u32) -> Result<Seq<u8>, Seq<char>>;

/// Encodes with the `png` crate (`Encoder::new` over a byte vector, colour RGBA, depth 8,
/// `write_header`, `write_image_data`). The bytes, or the encoder's message, are a function of
/// the arguments alone; what they are is left to the name `png_encoded`. The encoder computes
/// the filtered row length `4 * width + 1` and the frame size `4 * width * height` in `usize`
/// without an overflow check, so both must fit.
#[verifier::external_body]
fn png_encode(rgba: &[u8], width: u32, height: u32) -> (r: Result<Vec<u8>, String>)
    requires
        (4 * width + 1) * height <= usize::MAX,
    ensures
        match r {
            Ok(b) => png_encoded(rgba@, width, height) == Ok::<Seq<u8>, Seq<char>>(b@),
            Err(m) => png_encoded(rgba@, width, height) == Err::<Seq<u8>, Seq<char>>(m@),
        },
{
    let mut out = Vec::new();
    let mut encoder = png::Encoder::new(&mut out, width, height);
    encoder.set_color(png::ColorType::Rgba);
    encoder.set_depth(png::BitDepth::Eight);
    let mut writer = match encoder.write_header() {
        Ok(w) => w,
        Err(e) => return Err(e.to_string()),
    };
    if let Err(e) = writer.write_image_data(rgba) {
        return Err(e.to_string());
    }
    drop(writer);
    Ok(out)
}

/// Encode an RGBA8 frame as a PNG file; a failure carries the encoder's message. The frame's
/// filtered size (`4 * width + 1` bytes per row) must fit in `usize`.
pub fn encode_png(rgba: &[u8], width: u32, height: u32) -> (r: Result<Vec<u8>, String>)
    requires
        (4 * width + 1) * height <= usize::MAX,
    ensures
        match png_encoded(rgba@, width, height) {
            Ok(b) => r matches Ok(x) && x@ == b,
            Err(m) => r matches Err(e) && e@ == "PNG 编码失败: "@ + m,
        },
{
    match png_encode(rgba, width, height) {
        Ok(b) => Ok(b),
        Err(m) => {
            let mut e = String::from_str("PNG 编码失败: ");
            push_str(&mut e, m.as_str());
            Err(e)
        },
    }
}

// ---- vector-font glyphs ----

/// The rasterized bitmap of one character at one pixel size: its size, the offset of its
/// top-left corner from the baseline pen position (y downward), and its row-major coverage
/// (empty for an empty outline).
#[derive(Debug, PartialEq, Eq)]
pub struct RasterGlyph {
    pub width: u32,
    pub height: u32,
    pub left: i32,
    pub top: i32,
    pub coverage: Vec<u8>,
}

} // verus!
