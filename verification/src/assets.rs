//! The asset store: decoded PNG images keyed by their path under the project's asset folder
//! (forward slashes, kept in name order), plus the mounted vector font, and the zero-config
//! normal-map pairing (`hero.png` pairs with `hero_n.png`).
//!
//! Walking the folder and reading files is the host's part; decoding, the size budget, the
//! pixel-format unification and the store itself are here.
use vstd::prelude::*;
use crate::text::{
    chars_end_with, chars_lt, chars_of, ends_with, last_index, last_index_of, push_decimal,
    push_str, string_of, text_lt, decimal, lemma_text_lt_order, lemma_text_lt_trans,
};

verus! {

/// Side-length limit of one image: larger images are refused at import.
pub const MAX_DIMENSION: u32 = 2048;

/// A decoded image (RGBA8, row-major).
#[derive(Debug, PartialEq, Eq)]
pub struct Image {
    pub width: u32,
    pub height: u32,
    pub rgba: Vec<u8>,
}

/// The content of an image.
pub struct ImageV {
    pub width: u32,
    pub height: u32,
    pub rgba: Seq<u8>,
}

impl View for Image {
    type V = ImageV;

    open spec fn view(&self) -> ImageV {
        ImageV { width: self.width, height: self.height, rgba: self.rgba@ }
    }
}

/// The colour types a PNG frame can come out in (the decoder applies no transformation).
#[derive(Debug, Clone, Copy, PartialEq, Eq, Structural)]
pub enum PngColor {
    Grayscale,
    Rgb,
    Indexed,
    GrayscaleAlpha,
    Rgba,
}

/// One decoded PNG frame: size, colour-type code (as the PNG header writes it) and its sample
/// bytes.
#[derive(Debug)]
pub struct PngFrame {
    pub width: u32,
    pub height: u32,
    pub color_code: u8,
    pub data: Vec<u8>,
}

/// The colour type of a PNG colour-type code (0 grey, 2 RGB, 3 palette, 4 grey+alpha, 6 RGBA).
pub open spec fn color_of_code(code: u8) -> Option<PngColor> {
    if code == 0 {
        Some(PngColor::Grayscale)
    } else if code == 2 {
        Some(PngColor::Rgb)
    } else if code == 3 {
        Some(PngColor::Indexed)
    } else if code == 4 {
        Some(PngColor::GrayscaleAlpha)
    } else if code == 6 {
        Some(PngColor::Rgba)
    } else {
        None
    }
}

fn color_from_code(code: u8) -> (r: Option<PngColor>)
    ensures
        r == color_of_code(code),
{
    if code == 0 {
        Some(PngColor::Grayscale)
    } else if code == 2 {
        Some(PngColor::Rgb)
    } else if code == 3 {
        Some(PngColor::Indexed)
    } else if code == 4 {
        Some(PngColor::GrayscaleAlpha)
    } else if code == 6 {
        Some(PngColor::Rgba)
    } else {
        None
    }
}

/// Why the decoder produced no frame.
#[derive(Debug)]
pub enum PngFailure {
    /// The decoder's own error, as it describes itself.
    Decode(String),
    /// The header announced a frame whose buffer size does not fit in memory.
    BadSize,
}

/// What the `png` decoder makes of a file's bytes: `(width, height, colour-type code, samples)`
/// of the first frame, or why it failed (the decoder's message, or `None` for an impossible size).
pub uninterp spec fn png_decoded(bytes: Seq<u8>) -> Result<(u32, u32, u8, Seq<u8>), Option<Seq<char>>>;

/// Decodes the first frame with the `png` crate (`Decoder::new`, `read_info`,
/// `output_buffer_size`, `next_frame`, keeping `buffer_size()` bytes; the colour type as its
/// header code). The result is a
/// function of the bytes alone; what it is, is left to the name `png_decoded`.
#[verifier::external_body]
fn decode_png_frame(bytes: &[u8]) -> (r: Result<PngFrame, PngFailure>)
    ensures
        match r {
            Ok(f) => png_decoded(bytes@) == Ok::<(u32, u32, u8, Seq<u8>), Option<Seq<char>>>((f.width, f.height, f.color_code, f.data@)),
            Err(PngFailure::Decode(m)) => png_decoded(bytes@) == Err::<(u32, u32, u8, Seq<u8>), Option<Seq<char>>>(Some(m@)),
            Err(PngFailure::BadSize) => png_decoded(bytes@) == Err::<(u32, u32, u8, Seq<u8>), Option<Seq<char>>>(None),
        },
{
    let mut reader = png::Decoder::new(std::io::Cursor::new(bytes)).read_info().map_err(|e| PngFailure::Decode(e.to_string()))?;
    let mut buf = vec![0u8; reader.output_buffer_size().ok_or(PngFailure::BadSize)?];
    let info = reader.next_frame(&mut buf).map_err(|e| PngFailure::Decode(e.to_string()))?;
    buf.truncate(info.buffer_size());
    Ok(PngFrame { width: info.width, height: info.height, color_code: info.color_type as u8, data: buf })
}

/// The name a colour type prints under.
pub open spec fn color_name(c: PngColor) -> Seq<char> {
    match c {
        PngColor::Grayscale => "Grayscale"@,
        PngColor::Rgb => "Rgb"@,
        PngColor::Indexed => "Indexed"@,
        PngColor::GrayscaleAlpha => "GrayscaleAlpha"@,
        PngColor::Rgba => "Rgba"@,
    }
}

/// The first `n` RGB pixels of `data` as RGBA (each followed by an opaque alpha of 255).
pub open spec fn rgb_pixels_to_rgba(data: Seq<u8>, n: nat) -> Seq<u8>
    decreases n,
{
    if n == 0 {
        Seq::empty()
    } else {
        let k = n - 1;
        rgb_pixels_to_rgba(data, (n - 1) as nat) + seq![data[3 * k], data[3 * k + 1], data[3 * k + 2], 255u8]
    }
}

/// The over-budget message.
pub open spec fn too_large_message(w: u32, h: u32) -> Seq<char> {
    "尺寸 "@ + decimal(w as nat) + "x"@ + decimal(h as nat) + " 超过上限 2048。提示：精灵图不需要这么大，缩小或切分它"@
}

/// The unsupported-colour-type message.
pub open spec fn color_message(c: PngColor) -> Seq<char> {
    "颜色类型 "@ + color_name(c) + " 不支持。提示：用 RGBA 或 RGB 的 PNG（带不带透明都行）"@
}

/// A decoded frame as an RGBA8 image: over-budget sizes are refused, RGB gains an opaque alpha,
/// RGBA is taken as is, other colour types are refused.
pub open spec fn image_of_frame(w: u32, h: u32, code: u8, data: Seq<u8>) -> Result<ImageV, Seq<char>> {
    if w > MAX_DIMENSION || h > MAX_DIMENSION {
        Err(too_large_message(w, h))
    } else {
        match color_of_code(code) {
            Some(PngColor::Rgba) => Ok(ImageV { width: w, height: h, rgba: data }),
            Some(PngColor::Rgb) => Ok(ImageV { width: w, height: h, rgba: rgb_pixels_to_rgba(data, data.len() / 3) }),
            Some(c) => Err(color_message(c)),
            None => Err(unknown_color_message(code)),
        }
    }
}

/// The message for a colour-type code outside the PNG set (the decoder never yields one).
pub open spec fn unknown_color_message(code: u8) -> Seq<char> {
    "颜色类型 "@ + decimal(code as nat) + " 不支持。提示：用 RGBA 或 RGB 的 PNG（带不带透明都行）"@
}

/// What decoding a PNG file's bytes gives.
pub open spec fn decoded_image(bytes: Seq<u8>) -> Result<ImageV, Seq<char>> {
    match png_decoded(bytes) {
        Err(Some(m)) => Err("PNG 解码失败: "@ + m),
        Err(None) => Err("PNG 尺寸异常"@),
        Ok((w, h, code, data)) => image_of_frame(w, h, code, data),
    }
}

fn color_text(c: PngColor) -> (s: &'static str)
    ensures
        s@ == color_name(c),
{
    match c {
        PngColor::Grayscale => "Grayscale",
        PngColor::Rgb => "Rgb",
        PngColor::Indexed => "Indexed",
        PngColor::GrayscaleAlpha => "GrayscaleAlpha",
        PngColor::Rgba => "Rgba",
    }
}

/// The RGB samples of `data`, pixel by pixel, as RGBA with alpha 255 (a trailing partial pixel
/// is dropped).
pub fn rgb_to_rgba(data: &Vec<u8>) -> (out: Vec<u8>)
    ensures
        out@ == rgb_pixels_to_rgba(data@, data@.len() / 3),
{
    let n = data.len() / 3;
    let mut out: Vec<u8> = Vec::new();
    let mut k: usize = 0;
    while k < n
        invariant
            n == data@.len() / 3,
            data@.len() <= usize::MAX,
            k <= n,
            out@ == rgb_pixels_to_rgba(data@, k as nat),
        decreases n - k,
    {
        assert(3 * k + 3 <= data@.len()) by (nonlinear_arith)
            requires
                k < n,
                n == data@.len() / 3,
        ;
        let base = 3 * k;
        out.push(data[base]);
        out.push(data[base + 1]);
        out.push(data[base + 2]);
        out.push(255u8);
        proof {
            assert(rgb_pixels_to_rgba(data@, (k + 1) as nat) =~= rgb_pixels_to_rgba(data@, k as nat)
                + seq![data@[3 * k], data@[3 * k + 1], data@[3 * k + 2], 255u8]);
        }
        k += 1;
    }
    out
}

/// A decoded frame as an RGBA8 image (see [`image_of_frame`]).
pub fn image_from_frame(frame: PngFrame) -> (r: Result<Image, String>)
    ensures
        match r {
            Ok(img) => image_of_frame(frame.width, frame.height, frame.color_code, frame.data@) == Ok::<ImageV, Seq<char>>(img@),
            Err(m) => image_of_frame(frame.width, frame.height, frame.color_code, frame.data@) == Err::<ImageV, Seq<char>>(m@),
        },
{
    if frame.width > MAX_DIMENSION || frame.height > MAX_DIMENSION {
        let mut m = String::from_str("尺寸 ");
        push_decimal(&mut m, frame.width as u64);
        push_str(&mut m, "x");
        push_decimal(&mut m, frame.height as u64);
        push_str(&mut m, " 超过上限 2048。提示：精灵图不需要这么大，缩小或切分它");
        return Err(m);
    }
    match color_from_code(frame.color_code) {
        Some(PngColor::Rgba) => Ok(Image { width: frame.width, height: frame.height, rgba: frame.data }),
        Some(PngColor::Rgb) => {
            let rgba = rgb_to_rgba(&frame.data);
            Ok(Image { width: frame.width, height: frame.height, rgba })
        },
        Some(other) => {
            let mut m = String::from_str("颜色类型 ");
            push_str(&mut m, color_text(other));
            push_str(&mut m, " 不支持。提示：用 RGBA 或 RGB 的 PNG（带不带透明都行）");
            Err(m)
        },
        None => {
            let mut m = String::from_str("颜色类型 ");
            push_decimal(&mut m, frame.color_code as u64);
            push_str(&mut m, " 不支持。提示：用 RGBA 或 RGB 的 PNG（带不带透明都行）");
            Err(m)
        },
    }
}

/// Decode a PNG file's bytes into an RGBA8 image (see [`decoded_image`]).
pub fn decode_png(bytes: &[u8]) -> (r: Result<Image, String>)
    ensures
        match r {
            Ok(img) => decoded_image(bytes@) == Ok::<ImageV, Seq<char>>(img@),
            Err(m) => decoded_image(bytes@) == Err::<ImageV, Seq<char>>(m@),
        },
{
    match decode_png_frame(bytes) {
        Err(PngFailure::Decode(e)) => {
            let mut m = String::from_str("PNG 解码失败: ");
            push_str(&mut m, e.as_str());
            Err(m)
        },
        Err(PngFailure::BadSize) => Err(String::from_str("PNG 尺寸异常")),
        Ok(frame) => image_from_frame(frame),
    }
}

// ---- normal-map pairing ----

/// The file name after the last `/` (the whole name when there is none).
pub open spec fn file_part(name: Seq<char>) -> Seq<char> {
    match last_index(name, '/') {
        Some(i) => name.subrange(i + 1, name.len() as int),
        None => name,
    }
}

/// Whether `name` is a normal map: its file stem (before the last `.`) ends with `_n`.
pub open spec fn is_normal_name(name: Seq<char>) -> bool {
    let last = file_part(name);
    match last_index(last, '.') {
        Some(d) => ends_with(last.subrange(0, d), "_n"@),
        None => ends_with(last, "_n"@),
    }
}

/// Whether the last `.` of `name` lies in its file part (after its last `/`).
pub open spec fn dot_in_file_part(name: Seq<char>) -> bool {
    match last_index(name, '.') {
        None => false,
        Some(d) => match last_index(name, '/') {
            Some(p) => p < d,
            None => true,
        },
    }
}

/// The normal map paired with `name`: `stem_n.ext`, split at the last `.` of the file part;
/// none for a name that is itself a normal map or whose file part has no `.`.
pub open spec fn normal_name(name: Seq<char>) -> Option<Seq<char>> {
    if is_normal_name(name) || !dot_in_file_part(name) {
        None
    } else {
        let d = last_index(name, '.')->0;
        Some(name.subrange(0, d) + "_n."@ + name.subrange(d + 1, name.len() as int))
    }
}

/// Whether `name` is a normal map (its file stem ends with `_n`).
pub fn is_normal_map_name(name: &str) -> (r: bool)
    ensures
        r == is_normal_name(name@),
{
    let cs = chars_of(name);
    let total = cs.len();
    let last: Vec<char> = match last_index_of(&cs, '/') {
        Some(i) => {
            assert(i < total);
            let mut v: Vec<char> = Vec::new();
            let mut k: usize = i + 1;
            while k < cs.len()
                invariant
                    i < cs@.len(),
                    i + 1 <= k <= cs@.len(),
                    v@ == cs@.subrange(i + 1, k as int),
                decreases cs@.len() - k,
            {
                v.push(cs[k]);
                k += 1;
            }
            v
        },
        None => cs,
    };
    let suffix: Vec<char> = chars_of("_n");
    match last_index_of(&last, '.') {
        Some(d) => {
            let mut stem: Vec<char> = Vec::new();
            let mut k: usize = 0;
            while k < d
                invariant
                    d < last@.len(),
                    k <= d,
                    stem@ == last@.subrange(0, k as int),
                decreases d - k,
            {
                stem.push(last[k]);
                k += 1;
            }
            chars_end_with(&stem, &suffix)
        },
        None => chars_end_with(&last, &suffix),
    }
}

/// The normal map paired with `name` (see [`normal_name`]).
pub fn normal_map_name(name: &str) -> (r: Option<String>)
    ensures
        match r {
            Some(n) => normal_name(name@) == Some(n@),
            None => normal_name(name@) is None,
        },
{
    if is_normal_map_name(name) {
        return None;
    }
    let cs = chars_of(name);
    match last_index_of(&cs, '.') {
        None => None,
        Some(d) => {
            match last_index_of(&cs, '/') {
                Some(p) => {
                    if p > d {
                        return None;
                    }
                },
                None => {},
            }
            let mut out: Vec<char> = Vec::new();
            let mut k: usize = 0;
            while k < d
                invariant
                    d < cs@.len(),
                    k <= d,
                    out@ == cs@.subrange(0, k as int),
                decreases d - k,
            {
                out.push(cs[k]);
                k += 1;
            }
            out.push('_');
            out.push('n');
            out.push('.');
            let total = cs.len();
            assert(d < total);
            let mut k: usize = d + 1;
            let ghost head = out@;
            while k < cs.len()
                invariant
                    d < cs@.len(),
                    d + 1 <= k <= cs@.len(),
                    out@ == head + cs@.subrange(d + 1, k as int),
                decreases cs@.len() - k,
            {
                out.push(cs[k]);
                k += 1;
            }
            proof {
                reveal_strlit("_n.");
                assert(out@ =~= cs@.subrange(0, d as int) + "_n."@ + cs@.subrange(d + 1, cs@.len() as int));
            }
            Some(string_of(&out))
        },
    }
}

/// Pairing does not recurse: the normal map paired with any name is itself a normal map, so it
/// has no pairing of its own.
pub proof fn lemma_pairing_does_not_recurse(name: Seq<char>)
    requires
        normal_name(name) is Some,
    ensures
        is_normal_name(normal_name(name)->0),
        normal_name(normal_name(name)->0) is None,
{
    reveal_strlit("_n.");
    reveal_strlit("_n");
    crate::text::lemma_last_index(name, '.');
    crate::text::lemma_last_index(name, '/');
    let d = last_index(name, '.')->0;
    let stem = name.subrange(0, d);
    let ext = name.subrange(d + 1, name.len() as int);
    let mid = "_n."@;
    let n = stem + mid + ext;
    assert(normal_name(name)->0 == n);
    // the extension holds neither a `.` nor a `/`
    assert forall|j: int| 0 <= j < ext.len() implies ext[j] != '.' && ext[j] != '/' by {
        assert(ext[j] == name[d + 1 + j]);
    }
    crate::text::lemma_last_index(ext, '.');
    crate::text::lemma_last_index(ext, '/');
    crate::text::lemma_last_index(mid, '/');
    crate::text::lemma_last_index(mid, '.');
    // where the last `/` of the name and of the pairing fall
    assert(name =~= stem + (seq!['.'] + ext));
    crate::text::lemma_last_index(seq!['.'] + ext, '/');
    assert forall|j: int| 0 <= j < (seq!['.'] + ext).len() implies (seq!['.'] + ext)[j] != '/' by {
        if j > 0 {
            assert((seq!['.'] + ext)[j] == ext[j - 1]);
        }
    }
    crate::text::lemma_last_index_concat(stem, seq!['.'] + ext, '/');
    crate::text::lemma_last_index_concat(stem + mid, ext, '/');
    crate::text::lemma_last_index_concat(stem, mid, '/');
    assert(last_index(n, '/') == last_index(stem, '/'));
    let fs = file_part(stem);
    let fp = file_part(n);
    crate::text::lemma_last_index(stem, '/');
    assert(fp =~= fs + mid + ext) by {
        match last_index(stem, '/') {
            Some(p) => {
                assert(fp =~= n.subrange(p + 1, n.len() as int));
                assert(fs =~= stem.subrange(p + 1, stem.len() as int));
            },
            None => {},
        }
    }
    // the last `.` of the pairing's file part is the one just after `_n`
    crate::text::lemma_last_index_concat(fs + mid, ext, '.');
    crate::text::lemma_last_index_concat(fs, mid, '.');
    assert(last_index(mid, '.') == Some(2int));
    assert(last_index(fp, '.') == Some(fs.len() + 2int));
    assert(fp.subrange(0, fs.len() + 2int) =~= fs + "_n"@);
    assert(ends_with(fs + "_n"@, "_n"@)) by {
        assert((fs + "_n"@).subrange(fs.len() as int, fs.len() + 2int) =~= "_n"@);
    }
}

// ---- the store ----

/// Names in strictly increasing order (so each name once).
pub open spec fn keys_sorted(images: Seq<(Seq<char>, ImageV)>) -> bool {
    forall|i: int, j: int| 0 <= i < j < images.len() ==> text_lt(#[trigger] images[i].0, #[trigger] images[j].0)
}

/// How many names come before `name`.
pub open spec fn lower_bound(images: Seq<(Seq<char>, ImageV)>, name: Seq<char>) -> nat
    decreases images.len(),
{
    if images.len() == 0 {
        0
    } else if text_lt(images[0].0, name) {
        1 + lower_bound(images.drop_first(), name)
    } else {
        0
    }
}

/// The store after putting `img` under `name` (replacing an image of that name).
pub open spec fn images_insert(images: Seq<(Seq<char>, ImageV)>, name: Seq<char>, img: ImageV) -> Seq<(Seq<char>, ImageV)> {
    let p = lower_bound(images, name) as int;
    if p < images.len() && images[p].0 == name {
        images.update(p, (name, img))
    } else {
        images.insert(p, (name, img))
    }
}

/// The image stored under `name` (the first entry with that name; names are unique in a store).
pub open spec fn image_named(images: Seq<(Seq<char>, ImageV)>, name: Seq<char>) -> Option<ImageV>
    decreases images.len(),
{
    if images.len() == 0 {
        None
    } else if images[0].0 == name {
        Some(images[0].1)
    } else {
        image_named(images.drop_first(), name)
    }
}

/// Total size of the decoded pixels.
pub open spec fn pixel_bytes(images: Seq<(Seq<char>, ImageV)>) -> nat
    decreases images.len(),
{
    if images.len() == 0 {
        0
    } else {
        pixel_bytes(images.drop_last()) + images.last().1.rgba.len()
    }
}

/// The refusal to reload a store that was not loaded from a folder.
pub open spec fn no_root_message() -> Seq<char> {
    "素材仓库没有目录，无法重载"@
}

/// The content of a store (the font kept as the host's value).
pub struct AssetsV<F> {
    /// The folder it was loaded from (none for an empty store).
    pub root: Option<Seq<char>>,
    /// The images by name, in name order.
    pub images: Seq<(Seq<char>, ImageV)>,
    /// The mounted vector font (none: the built-in bitmap font).
    pub font: Option<F>,
    /// The file the mounted font was read from (a reload reads it again).
    pub font_path: Option<Seq<char>>,
}

impl<F> AssetsV<F> {
    /// Names strictly increase, and a font is mounted exactly when its file is known.
    pub open spec fn wf(self) -> bool {
        &&& keys_sorted(self.images)
        &&& (self.font is Some <==> self.font_path is Some)
    }
}

/// Asset store. `F` is the vector font the host mounts.
#[derive(Debug)]
pub struct Assets<F> {
    root: Option<String>,
    images: Vec<(String, Image)>,
    /// The mounted font with the file it was read from.
    font: Option<(F, String)>,
}

pub open spec fn images_view(s: Seq<(String, Image)>) -> Seq<(Seq<char>, ImageV)> {
    s.map_values(|e: (String, Image)| (e.0@, e.1@))
}

impl<F> View for Assets<F> {
    type V = AssetsV<F>;

    closed spec fn view(&self) -> AssetsV<F> {
        AssetsV {
            root: match self.root {
                Some(r) => Some(r@),
                None => None,
            },
            images: images_view(self.images@),
            font: match self.font {
                Some(fp) => Some(fp.0),
                None => None,
            },
            font_path: match self.font {
                Some(fp) => Some(fp.1@),
                None => None,
            },
        }
    }
}

impl<F> Assets<F> {
    /// Names strictly increase (the font and its file come as one).
    #[verifier::type_invariant]
    spec fn names_sorted(self) -> bool {
        keys_sorted(images_view(self.images@))
    }
}

proof fn lemma_lower_bound(images: Seq<(Seq<char>, ImageV)>, name: Seq<char>)
    requires
        keys_sorted(images),
    ensures
        lower_bound(images, name) <= images.len(),
        forall|i: int| 0 <= i < lower_bound(images, name) ==> text_lt(#[trigger] images[i].0, name),
        forall|i: int| lower_bound(images, name) <= i < images.len() ==> !text_lt(#[trigger] images[i].0, name),
    decreases images.len(),
{
    if images.len() > 0 {
        let rest = images.drop_first();
        assert(keys_sorted(rest)) by {
            assert forall|i: int, j: int| 0 <= i < j < rest.len() implies text_lt(#[trigger] rest[i].0, #[trigger] rest[j].0) by {
                assert(rest[i] == images[i + 1] && rest[j] == images[j + 1]);
            }
        }
        lemma_lower_bound(rest, name);
        if text_lt(images[0].0, name) {
            assert forall|i: int| 0 <= i < lower_bound(images, name) implies text_lt(#[trigger] images[i].0, name) by {
                if i > 0 {
                    assert(images[i] == rest[i - 1]);
                }
            }
            assert forall|i: int| lower_bound(images, name) <= i < images.len() implies !text_lt(#[trigger] images[i].0, name) by {
                assert(images[i] == rest[i - 1]);
            }
        } else {
            assert forall|i: int| 0 <= i < images.len() implies !text_lt(#[trigger] images[i].0, name) by {
                if i > 0 {
                    assert(text_lt(images[0].0, images[i].0));
                    if text_lt(images[i].0, name) {
                        lemma_text_lt_trans(images[0].0, images[i].0, name);
                    }
                }
            }
        }
    }
}

proof fn lemma_image_named(images: Seq<(Seq<char>, ImageV)>, name: Seq<char>, i: int)
    requires
        0 <= i <= images.len(),
        forall|j: int| 0 <= j < i ==> #[trigger] images[j].0 != name,
        i < images.len() ==> images[i].0 == name,
    ensures
        image_named(images, name) == if i < images.len() { Some(images[i].1) } else { None::<ImageV> },
    decreases i,
{
    if i > 0 {
        let rest = images.drop_first();
        assert(images[0].0 != name);
        assert forall|j: int| 0 <= j < i - 1 implies #[trigger] rest[j].0 != name by {
            assert(rest[j] == images[j + 1]);
        }
        lemma_image_named(rest, name, i - 1);
    }
}

proof fn lemma_sorted_lookup(images: Seq<(Seq<char>, ImageV)>, name: Seq<char>)
    requires
        keys_sorted(images),
    ensures
        (exists|q: int| 0 <= q < images.len() && images[q].0 == name) ==>
            image_named(images, name) == Some(images[choose|q: int| 0 <= q < images.len() && images[q].0 == name].1),
        !(exists|q: int| 0 <= q < images.len() && images[q].0 == name) ==> image_named(images, name) is None,
{
    if exists|q: int| 0 <= q < images.len() && images[q].0 == name {
        let q = choose|q: int| 0 <= q < images.len() && images[q].0 == name;
        assert forall|j: int| 0 <= j < q implies #[trigger] images[j].0 != name by {
            assert(text_lt(images[j].0, images[q].0));
            lemma_text_lt_order(name, name);
        }
        lemma_image_named(images, name, q);
    } else {
        lemma_image_named(images, name, images.len() as int);
    }
}

/// The store's names, in its order.
pub open spec fn names_of(images: Seq<(Seq<char>, ImageV)>) -> Seq<Seq<char>> {
    images.map_values(|e: (Seq<char>, ImageV)| e.0)
}

/// The pixel bytes of the images read back under `names` (a name with no image counts 0).
pub open spec fn bytes_under(images: Seq<(Seq<char>, ImageV)>, names: Seq<Seq<char>>) -> nat
    decreases names.len(),
{
    if names.len() == 0 {
        0
    } else {
        bytes_under(images, names.drop_last()) + match image_named(images, names.last()) {
            Some(img) => img.rgba.len(),
            None => 0,
        }
    }
}

/// In a well-formed store, the listing agrees with the lookups: the names strictly increase
/// (so none repeats), there is one per image, each name reads back its own image, and the pixel
/// total is the sum of the sizes of the images read back under the listed names.
pub proof fn lemma_listing_agrees(images: Seq<(Seq<char>, ImageV)>)
    requires
        keys_sorted(images),
    ensures
        forall|i: int, j: int| 0 <= i < j < names_of(images).len() ==> text_lt(#[trigger] names_of(images)[i], #[trigger] names_of(images)[j]),
        names_of(images).len() == images.len(),
        forall|i: int| 0 <= i < images.len() ==> image_named(images, #[trigger] names_of(images)[i]) == Some(images[i].1),
        pixel_bytes(images) == bytes_under(images, names_of(images)),
{
    let ns = names_of(images);
    assert forall|i: int| 0 <= i < images.len() implies image_named(images, #[trigger] ns[i]) == Some(images[i].1) by {
        assert forall|j: int| 0 <= j < i implies #[trigger] images[j].0 != images[i].0 by {
            assert(text_lt(images[j].0, images[i].0));
            lemma_text_lt_order(images[i].0, images[i].0);
        }
        lemma_image_named(images, images[i].0, i);
    }
    lemma_bytes_under_prefix(images, images.len() as int);
    assert(images.subrange(0, images.len() as int) =~= images);
    assert(ns.subrange(0, images.len() as int) =~= ns);
}

proof fn lemma_bytes_under_prefix(images: Seq<(Seq<char>, ImageV)>, k: int)
    requires
        0 <= k <= images.len(),
        forall|i: int| 0 <= i < images.len() ==> image_named(images, #[trigger] names_of(images)[i]) == Some(images[i].1),
    ensures
        pixel_bytes(images.subrange(0, k)) == bytes_under(images, names_of(images).subrange(0, k)),
    decreases k,
{
    let ns = names_of(images);
    if k > 0 {
        lemma_bytes_under_prefix(images, k - 1);
        assert(images.subrange(0, k).drop_last() =~= images.subrange(0, k - 1));
        assert(ns.subrange(0, k).drop_last() =~= ns.subrange(0, k - 1));
        assert(ns.subrange(0, k).last() == ns[k - 1]);
        assert(image_named(images, ns[k - 1]) == Some(images[k - 1].1));
    } else {
        assert(images.subrange(0, 0) =~= Seq::<(Seq<char>, ImageV)>::empty());
        assert(ns.subrange(0, 0) =~= Seq::<Seq<char>>::empty());
    }
}

/// A stored image is read back under its name, and storing it leaves every other name's image
/// as it was.
pub proof fn lemma_insert_then_image(images: Seq<(Seq<char>, ImageV)>, name: Seq<char>, img: ImageV, other: Seq<char>)
    requires
        keys_sorted(images),
    ensures
        image_named(images_insert(images, name, img), name) == Some(img),
        other != name ==> image_named(images_insert(images, name, img), other) == image_named(images, other),
{
    lemma_lower_bound(images, name);
    let p = lower_bound(images, name) as int;
    let nw = images_insert(images, name, img);
    let replace = p < images.len() && images[p].0 == name;
    assert forall|j: int| 0 <= j < p implies #[trigger] nw[j].0 != name by {
        assert(nw[j] == images[j]);
        lemma_text_lt_order(name, name);
    }
    lemma_image_named(nw, name, p);
    if other != name {
        // the new store is sorted too
        if !replace {
            assert forall|k: int| p <= k < images.len() implies text_lt(name, #[trigger] images[k].0) by {
                lemma_text_lt_order(images[p].0, name);
                if k > p {
                    assert(text_lt(images[p].0, images[k].0));
                    lemma_text_lt_trans(name, images[p].0, images[k].0);
                }
            }
        }
        assert(keys_sorted(nw)) by {
            assert forall|i: int, j: int| 0 <= i < j < nw.len() implies text_lt(#[trigger] nw[i].0, #[trigger] nw[j].0) by {
                if replace {
                    assert(nw[i].0 == images[i].0 && nw[j].0 == images[j].0);
                } else if j < p {
                    assert(nw[i] == images[i] && nw[j] == images[j]);
                } else if j == p {
                    assert(nw[i] == images[i]);
                } else if i < p {
                    assert(nw[i] == images[i] && nw[j] == images[j - 1]);
                } else if i == p {
                    assert(nw[j] == images[j - 1]);
                } else {
                    assert(nw[i] == images[i - 1] && nw[j] == images[j - 1]);
                }
            }
        }
        lemma_sorted_lookup(images, other);
        lemma_sorted_lookup(nw, other);
        if exists|q: int| 0 <= q < images.len() && images[q].0 == other {
            let q = choose|q: int| 0 <= q < images.len() && images[q].0 == other;
            let q2 = if replace || q < p { q } else { q + 1 };
            assert(nw[q2] == images[q]);
            assert(exists|r: int| 0 <= r < nw.len() && nw[r].0 == other);
            let r = choose|r: int| 0 <= r < nw.len() && nw[r].0 == other;
            if r != q2 {
                if r < q2 {
                    assert(text_lt(nw[r].0, nw[q2].0));
                } else {
                    assert(text_lt(nw[q2].0, nw[r].0));
                }
                lemma_text_lt_order(other, other);
            }
        } else {
            if exists|r: int| 0 <= r < nw.len() && nw[r].0 == other {
                let r = choose|r: int| 0 <= r < nw.len() && nw[r].0 == other;
                if replace {
                    assert(nw[r].0 == images[r].0);
                } else if r < p {
                    assert(nw[r] == images[r]);
                } else if r > p {
                    assert(nw[r] == images[r - 1]);
                }
            }
        }
    }
}

proof fn lemma_pixel_bytes_push(images: Seq<(Seq<char>, ImageV)>, e: (Seq<char>, ImageV))
    ensures
        pixel_bytes(images.push(e)) == pixel_bytes(images) + e.1.rgba.len(),
{
    assert(images.push(e).drop_last() =~= images);
}

impl<F> Assets<F> {
    /// An empty store (no folder, no images, no font).
    pub fn empty() -> (a: Assets<F>)
        ensures
            a@.root is None,
            a@.images == Seq::<(Seq<char>, ImageV)>::empty(),
            a@.font is None,
            a@.font_path is None,
            a@.wf(),
    {
        let a = Assets { root: None, images: Vec::new(), font: None };
        proof { assert(images_view(a.images@) =~= Seq::<(Seq<char>, ImageV)>::empty()); }
        a
    }

    /// An empty store loaded from the folder `root` (images are then added one by one).
    pub fn with_root(root: &str) -> (a: Assets<F>)
        ensures
            a@.root == Some(root@),
            a@.images == Seq::<(Seq<char>, ImageV)>::empty(),
            a@.font is None,
            a@.font_path is None,
            a@.wf(),
    {
        let a = Assets { root: Some(String::from_str(root)), images: Vec::new(), font: None };
        proof { assert(images_view(a.images@) =~= Seq::<(Seq<char>, ImageV)>::empty()); }
        a
    }

    /// Put `img` under `name`, replacing an image of that name; names stay in order.
    pub fn insert(&mut self, name: String, img: Image)
        ensures
            final(self)@.wf(),
            final(self)@.images == images_insert(old(self)@.images, name@, img@),
            final(self)@.root == old(self)@.root,
            final(self)@.font == old(self)@.font,
            final(self)@.font_path == old(self)@.font_path,
    {
        proof { use_type_invariant(&*self); }
        let ghost old_v = images_view(self.images@);
        let ghost nv = name@;
        let ghost iv = img@;
        let key = chars_of(name.as_str());
        proof { lemma_lower_bound(old_v, nv); }
        let mut p: usize = 0;
        while p < self.images.len()
            invariant
                old_v == images_view(self.images@),
                key@ == nv,
                p <= self.images@.len(),
                forall|i: int| 0 <= i < p ==> text_lt(#[trigger] old_v[i].0, nv),
            ensures
                p <= self.images@.len(),
                forall|i: int| 0 <= i < p ==> text_lt(#[trigger] old_v[i].0, nv),
                p < self.images@.len() ==> !text_lt(old_v[p as int].0, nv),
            decreases self.images@.len() - p,
        {
            proof { assert(old_v[p as int].0 == self.images@[p as int].0@); }
            let k = chars_of(self.images[p].0.as_str());
            if !chars_lt(&k, &key) {
                break;
            }
            p += 1;
        }
        proof {
            lemma_lower_bound(old_v, nv);
            assert(lower_bound(old_v, nv) == p) by {
                if lower_bound(old_v, nv) < p {
                    assert(text_lt(old_v[lower_bound(old_v, nv) as int].0, nv));
                }
                if lower_bound(old_v, nv) > p {
                    assert(text_lt(old_v[p as int].0, nv));
                }
            }
        }
        let replace = p < self.images.len() && crate::text::str_eq(self.images[p].0.as_str(), name.as_str());
        let mut images: Vec<(String, Image)> = Vec::new();
        std::mem::swap(&mut images, &mut self.images);
        let ghost before = images@;
        if replace {
            images.set(p, (name, img));
            proof {
                assert(images_view(images@) =~= old_v.update(p as int, (nv, iv)));
            }
        } else {
            images.insert(p, (name, img));
            proof {
                assert(images_view(images@) =~= old_v.insert(p as int, (nv, iv)));
            }
        }
        proof {
            let nw = images_view(images@);
            assert(nw == images_insert(old_v, nv, iv));
            if !replace {
                assert forall|k: int| p <= k < old_v.len() implies text_lt(nv, #[trigger] old_v[k].0) by {
                    lemma_text_lt_order(old_v[p as int].0, nv);
                    if k > p {
                        assert(text_lt(old_v[p as int].0, old_v[k].0));
                        lemma_text_lt_trans(nv, old_v[p as int].0, old_v[k].0);
                    }
                }
            }
            assert forall|i: int, j: int| 0 <= i < j < nw.len() implies text_lt(#[trigger] nw[i].0, #[trigger] nw[j].0) by {
                if replace {
                    assert(nw[i].0 == old_v[i].0 && nw[j].0 == old_v[j].0);
                } else if j < p {
                    assert(nw[i] == old_v[i] && nw[j] == old_v[j]);
                } else if j == p {
                    assert(nw[i] == old_v[i]);
                } else if i < p {
                    assert(nw[i] == old_v[i] && nw[j] == old_v[j - 1]);
                } else if i == p {
                    assert(nw[j] == old_v[j - 1]);
                } else {
                    assert(nw[i] == old_v[i - 1] && nw[j] == old_v[j - 1]);
                }
            }
        }
        self.images = images;
    }

    /// The image stored under `name`.
    pub fn image(&self, name: &str) -> (r: Option<&Image>)
        ensures
            match r {
                Some(img) => image_named(self@.images, name@) == Some(img@),
                None => image_named(self@.images, name@) is None,
            },
    {
        let ghost iv = images_view(self.images@);
        let key = chars_of(name);
        let mut i: usize = 0;
        while i < self.images.len()
            invariant
                iv == images_view(self.images@),
                key@ == name@,
                i <= self.images@.len(),
                forall|j: int| 0 <= j < i ==> #[trigger] iv[j].0 != name@,
            decreases self.images@.len() - i,
        {
            let k = chars_of(self.images[i].0.as_str());
            if crate::text::chars_eq(&k, &key) {
                proof { lemma_image_named(iv, name@, i as int); }
                return Some(&self.images[i].1);
            }
            i += 1;
        }
        proof { lemma_image_named(iv, name@, i as int); }
        None
    }

    /// The normal map of the image `name` (see [`normal_name`]); none when there is no pairing
    /// or no such image.
    pub fn normal_of(&self, name: &str) -> (r: Option<&Image>)
        ensures
            match normal_name(name@) {
                None => r is None,
                Some(n) => match r {
                    Some(img) => image_named(self@.images, n) == Some(img@),
                    None => image_named(self@.images, n) is None,
                },
            },
    {
        match normal_map_name(name) {
            None => None,
            Some(n) => self.image(n.as_str()),
        }
    }

    /// Whether any stored image is a normal map.
    pub fn has_normal_maps(&self) -> (r: bool)
        ensures
            r == exists|i: int| 0 <= i < self@.images.len() && is_normal_name(#[trigger] self@.images[i].0),
    {
        let ghost iv = images_view(self.images@);
        let mut i: usize = 0;
        while i < self.images.len()
            invariant
                iv == images_view(self.images@),
                iv == self@.images,
                i <= self.images@.len(),
                forall|j: int| 0 <= j < i ==> !is_normal_name(#[trigger] iv[j].0),
            decreases self.images@.len() - i,
        {
            if is_normal_map_name(self.images[i].0.as_str()) {
                assert(is_normal_name(iv[i as int].0));
                return true;
            }
            i += 1;
        }
        false
    }

    /// The stored names, in order. They strictly increase (so none repeats), there is one per
    /// image, each reads back its own image, and the pixel total is the sum over them.
    pub fn names(&self) -> (r: Vec<&str>)
        ensures
            r@.map_values(|s: &str| s@) == names_of(self@.images),
            r@.len() == self@.images.len(),
            forall|i: int, j: int| 0 <= i < j < r@.len() ==> text_lt(#[trigger] r@[i]@, #[trigger] r@[j]@),
            forall|i: int| 0 <= i < r@.len() ==> image_named(self@.images, (#[trigger] r@[i])@) == Some(self@.images[i].1),
            pixel_bytes(self@.images) == bytes_under(self@.images, names_of(self@.images)),
            self@.wf(),
    {
        proof {
            use_type_invariant(self);
            lemma_listing_agrees(self@.images);
        }
        let ghost iv = images_view(self.images@);
        let mut r: Vec<&str> = Vec::new();
        let mut i: usize = 0;
        while i < self.images.len()
            invariant
                iv == images_view(self.images@),
                iv == self@.images,
                i <= self.images@.len(),
                r@.len() == i,
                forall|j: int| 0 <= j < i ==> (#[trigger] r@[j])@ == iv[j].0,
            decreases self.images@.len() - i,
        {
            r.push(self.images[i].0.as_str());
            i += 1;
        }
        proof {
            assert(r@.map_values(|s: &str| s@) =~= names_of(iv));
            assert forall|i: int| 0 <= i < r@.len() implies (#[trigger] r@[i])@ == names_of(iv)[i] by {}
        }
        r
    }

    /// How many images are stored.
    pub fn count(&self) -> (n: usize)
        ensures
            n == self@.images.len(),
    {
        self.images.len()
    }

    /// Memory taken by the decoded pixels, in bytes.
    pub fn total_bytes(&self) -> (n: usize)
        requires
            pixel_bytes(self@.images) <= usize::MAX,
        ensures
            n == pixel_bytes(self@.images),
    {
        let ghost iv = images_view(self.images@);
        let mut total: usize = 0;
        let mut i: usize = 0;
        while i < self.images.len()
            invariant
                iv == images_view(self.images@),
                pixel_bytes(iv) <= usize::MAX,
                i <= self.images@.len(),
                total == pixel_bytes(iv.subrange(0, i as int)),
            decreases self.images@.len() - i,
        {
            proof {
                assert(iv.subrange(0, i + 1) =~= iv.subrange(0, i as int).push(iv[i as int]));
                lemma_pixel_bytes_push(iv.subrange(0, i as int), iv[i as int]);
                lemma_pixel_bytes_prefix(iv, i + 1);
            }
            total = total + self.images[i].1.rgba.len();
            i += 1;
        }
        proof { assert(iv.subrange(0, i as int) =~= iv); }
        total
    }

    /// The mounted vector font (none: the built-in bitmap font).
    pub fn font(&self) -> (r: Option<&F>)
        ensures
            match r {
                Some(f) => self@.font == Some(*f),
                None => self@.font is None,
            },
    {
        match &self.font {
            Some(fp) => Some(&fp.0),
            None => None,
        }
    }

    /// The file the mounted font was read from (none: no font is mounted).
    pub fn font_path(&self) -> (r: Option<&str>)
        ensures
            match r {
                Some(p) => self@.font_path == Some(p@),
                None => self@.font_path is None,
            },
    {
        match &self.font {
            Some(fp) => Some(fp.1.as_str()),
            None => None,
        }
    }

    /// Mount the vector font read from `path` (`font` is the host's load of that file); a font
    /// that failed to load leaves the store as it was and passes the failure on.
    pub fn load_font(&mut self, path: &str, font: Result<F, String>) -> (r: Result<(), String>)
        ensures
            match font {
                Ok(f) => r is Ok && final(self)@ == (AssetsV { font: Some(f), font_path: Some(path@), ..old(self)@ }),
                Err(m) => final(self)@ == old(self)@ && (r matches Err(e) && e@ == m@),
            },
    {
        proof { use_type_invariant(&*self); }
        match font {
            Ok(f) => {
                self.font = Some((f, String::from_str(path)));
                Ok(())
            },
            Err(m) => Err(m),
        }
    }

    /// The folder to reload from; a store that was not loaded from one cannot be reloaded.
    pub fn reload_root(&self) -> (r: Result<String, String>)
        ensures
            match self@.root {
                Some(root) => r matches Ok(s) && s@ == root,
                None => r matches Err(m) && m@ == no_root_message(),
            },
    {
        match &self.root {
            Some(r) => Ok(r.clone()),
            None => Err(String::from_str("素材仓库没有目录，无法重载")),
        }
    }

    /// Hot reload. `fresh` is the host's new load of this store's folder, and `fresh_font` its
    /// new load of the mounted font's file (given exactly when a font is mounted). A store with
    /// no folder is refused; any failure leaves the store as it was and is passed on (the folder's
    /// before the font's). On success the images are the fresh ones, and the folder and the font
    /// file stay the same.
    pub fn reload(&mut self, fresh: Result<Assets<F>, String>, fresh_font: Option<Result<F, String>>) -> (r: Result<(), String>)
        requires
            old(self)@.font_path is Some <==> fresh_font is Some,
        ensures
            old(self)@.root is None ==> final(self)@ == old(self)@ && (r matches Err(e) && e@ == no_root_message()),
            old(self)@.root is Some ==> match fresh {
                Err(m) => final(self)@ == old(self)@ && (r matches Err(e) && e@ == m@),
                Ok(a) => match fresh_font {
                    Some(Err(m)) => final(self)@ == old(self)@ && (r matches Err(e) && e@ == m@),
                    Some(Ok(f)) => r is Ok && final(self)@ == (AssetsV { images: a@.images, font: Some(f), ..old(self)@ }),
                    None => r is Ok && final(self)@ == (AssetsV { images: a@.images, ..old(self)@ }),
                },
            },
            final(self)@.wf(),
    {
        proof { use_type_invariant(&*self); }
        if self.root.is_none() {
            return Err(String::from_str("素材仓库没有目录，无法重载"));
        }
        let a = match fresh {
            Ok(a) => a,
            Err(m) => return Err(m),
        };
        proof { use_type_invariant(&a); }
        match fresh_font {
            Some(Err(m)) => Err(m),
            Some(Ok(f)) => {
                self.images = a.images;
                let path = match &self.font {
                    Some(fp) => fp.1.clone(),
                    None => String::new(),
                };
                self.font = Some((f, path));
                Ok(())
            },
            None => {
                self.images = a.images;
                Ok(())
            },
        }
    }
}

proof fn lemma_pixel_bytes_prefix(images: Seq<(Seq<char>, ImageV)>, n: int)
    requires
        0 <= n <= images.len(),
    ensures
        pixel_bytes(images.subrange(0, n)) <= pixel_bytes(images),
    decreases images.len(),
{
    if n < images.len() {
        assert(images.drop_last().subrange(0, n) =~= images.subrange(0, n));
        lemma_pixel_bytes_prefix(images.drop_last(), n);
    } else {
        assert(images.subrange(0, n) =~= images);
    }
}

impl<F> Assets<F> {
    /// Decode the PNG file `rel` (its bytes) and store it under that name; a failure names the file.
    pub fn insert_png(&mut self, rel: &str, bytes: &[u8]) -> (r: Result<(), String>)
        ensures
            final(self)@.wf(),
            match decoded_image(bytes@) {
                Ok(img) => r is Ok && final(self)@ == (AssetsV { images: images_insert(old(self)@.images, rel@, img), ..old(self)@ }),
                Err(m) => final(self)@ == old(self)@ && (r matches Err(e) && e@ == "素材 "@ + rel@ + ": "@ + m),
            },
    {
        proof { use_type_invariant(&*self); }
        match decode_png(bytes) {
            Ok(img) => {
                self.insert(String::from_str(rel), img);
                Ok(())
            },
            Err(m) => {
                let mut e = String::from_str("素材 ");
                push_str(&mut e, rel);
                push_str(&mut e, ": ");
                push_str(&mut e, m.as_str());
                Err(e)
            },
        }
    }
}

} // verus!
