use vstd::prelude::*;

verus! {

/// Whether `c` is `w` up to ASCII case, for a lower-case `w`.
pub open spec fn char_matches(c: char, w: char) -> bool {
    c == w || ('a' <= w <= 'z' && c as u32 + 32 == w as u32)
}

/// Whether `s` spells the lower-case `word` up to ASCII case.
pub open spec fn eq_ignore_case(s: Seq<char>, word: Seq<char>) -> bool {
    &&& s.len() == word.len()
    &&& forall|i: int| 0 <= i < s.len() ==> #[trigger] char_matches(s[i], word[i])
}

/// Whether `ext` names one of the formats of the two-stage HEIF decoder.
pub open spec fn is_heif_ext(ext: Seq<char>) -> bool {
    eq_ignore_case(ext, "heic"@) || eq_ignore_case(ext, "heif"@)
}

/// Whether `ext` is a file extension, in any case, of an image the viewer
/// opens.
pub open spec fn is_supported_ext(ext: Seq<char>) -> bool {
    ||| eq_ignore_case(ext, "jpg"@)
    ||| eq_ignore_case(ext, "jpeg"@)
    ||| eq_ignore_case(ext, "png"@)
    ||| eq_ignore_case(ext, "webp"@)
    ||| eq_ignore_case(ext, "bmp"@)
    ||| eq_ignore_case(ext, "gif"@)
    ||| eq_ignore_case(ext, "heic"@)
    ||| eq_ignore_case(ext, "heif"@)
    ||| eq_ignore_case(ext, "tiff"@)
    ||| eq_ignore_case(ext, "tga"@)
}

/// How an image file is decoded.
#[derive(Clone, Copy, Debug, PartialEq, Eq, Structural)]
pub enum DecodeStrategy {
    /// The general-purpose decoder, which yields RGBA-compatible data.
    Generic,
    /// The HEIF context decoder, whose interleaved plane is then packed.
    HeicFamily,
}

/// Whether `ext` spells the lower-case `word` up to ASCII case.
fn ext_matches(ext: &str, word: &str) -> (r: bool)
    ensures
        r == eq_ignore_case(ext@, word@),
{
    let n = ext.unicode_len();
    if n != word.unicode_len() {
        return false;
    }
    let mut i: usize = 0;
    while i < n
        invariant
            n == ext@.len(),
            n == word@.len(),
            i <= n,
            forall|j: int| 0 <= j < i ==> #[trigger] char_matches(ext@[j], word@[j]),
        decreases n - i,
    {
        let c = ext.get_char(i);
        let w = word.get_char(i);
        let same = c == w || ('a' <= w && w <= 'z' && (c as u32) + 32 == (w as u32));
        if !same {
            proof {
                assert(!char_matches(ext@[i as int], word@[i as int]));
            }
            return false;
        }
        i = i + 1;
    }
    true
}

/// Whether `ext` is the extension, in any case, of a format the viewer opens:
/// jpg, jpeg, png, webp, bmp, gif, heic, heif, tiff or tga.
pub fn is_supported_extension(ext: &str) -> (r: bool)
    ensures
        r == is_supported_ext(ext@),
{
    ext_matches(ext, "jpg") || ext_matches(ext, "jpeg") || ext_matches(ext, "png")
        || ext_matches(ext, "webp") || ext_matches(ext, "bmp") || ext_matches(ext, "gif")
        || ext_matches(ext, "heic") || ext_matches(ext, "heif") || ext_matches(ext, "tiff")
        || ext_matches(ext, "tga")
}

/// The decoder for a file with extension `ext`: heic and heif, in any case, go
/// through the HEIF decoder, everything else through the general one.
pub fn decode_strategy(ext: &str) -> (r: DecodeStrategy)
    ensures
        r == (if is_heif_ext(ext@) {
            DecodeStrategy::HeicFamily
        } else {
            DecodeStrategy::Generic
        }),
{
    if ext_matches(ext, "heic") || ext_matches(ext, "heif") {
        DecodeStrategy::HeicFamily
    } else {
        DecodeStrategy::Generic
    }
}

} // verus!
