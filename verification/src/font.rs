//! Mounting the vector font: the bytes of a TTF/OTF file become an `ab_glyph` font, or an error
//! that names the file. Reading the file is the host's part; layout and rasterization (floating
//! point) are the host's too.
use vstd::prelude::*;
use crate::text::push_str;

verus! {

#[verifier::external_type_specification]
#[verifier::external_body]
pub struct ExFontVec(ab_glyph::FontVec);

/// Whether `ab_glyph` accepts the bytes as a font (face index 0 of a TTF/OTF file or collection).
pub uninterp spec fn font_accepted(bytes: Seq<u8>) -> bool;

/// Parses with `ab_glyph::FontVec::try_from_vec` (face index 0). Whether it succeeds depends on
/// the bytes alone and is left to the name `font_accepted`; the crate's only error,
/// `InvalidFont`, displays as the text "InvalidFont".
#[verifier::external_body]
fn parse_font(bytes: Vec<u8>) -> (r: Result<ab_glyph::FontVec, String>)
    ensures
        r is Ok <==> font_accepted(bytes@),
        r is Err ==> r->Err_0@ == "InvalidFont"@,
{
    match ab_glyph::FontVec::try_from_vec(bytes) {
        Ok(f) => Ok(f),
        Err(e) => Err(format!("{}", e)),
    }
}

/// The message for a font file that does not parse.
pub open spec fn bad_font_message(path: Seq<char>, err: Seq<char>) -> Seq<char> {
    "字体 "@ + path + " 不是合法的 TTF/OTF: "@ + err + "。提示：换一个能正常打开的字体文件"@
}

/// The message for a font file that cannot be read.
pub open spec fn unreadable_font_message(path: Seq<char>, err: Seq<char>) -> Seq<char> {
    "读取字体 "@ + path + " 失败: "@ + err + "。清单 font 字段的路径相对项目根目录"@
}

/// The font in the bytes read from `path`; bytes that are no font give an error naming the path.
pub fn load_font_bytes(path: &str, bytes: Vec<u8>) -> (r: Result<ab_glyph::FontVec, String>)
    ensures
        r is Ok <==> font_accepted(bytes@),
        r is Err ==> r->Err_0@ == bad_font_message(path@, "InvalidFont"@),
{
    match parse_font(bytes) {
        Ok(f) => Ok(f),
        Err(e) => {
            let mut m = String::from_str("字体 ");
            push_str(&mut m, path);
            push_str(&mut m, " 不是合法的 TTF/OTF: ");
            push_str(&mut m, e.as_str());
            push_str(&mut m, "。提示：换一个能正常打开的字体文件");
            Err(m)
        },
    }
}

/// The error for a font file that could not be read (`detail` is the reader's explanation).
pub fn unreadable_font(path: &str, detail: &str) -> (m: String)
    ensures
        m@ == unreadable_font_message(path@, detail@),
{
    let mut m = String::from_str("读取字体 ");
    push_str(&mut m, path);
    push_str(&mut m, " 失败: ");
    push_str(&mut m, detail);
    push_str(&mut m, "。清单 font 字段的路径相对项目根目录");
    m
}

} // verus!
