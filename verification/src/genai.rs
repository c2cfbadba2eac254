//! Generative-image requests, provider-agnostic: the aspect ratios the image
//! endpoints enumerate, the per-provider request rules, and the handling of
//! what the providers send back.
//!
//! Provider fit: **Grok** accepts up to [`xai::MAX_REFERENCE_IMAGES`]
//! reference images and is lenient about mascots and named people;
//! **Imagen** honours a real aspect parameter but takes no reference images.

pub mod google;
pub mod xai;

use vstd::prelude::*;
use base64::{DecodeError, Engine as _};
use crate::path_name::{extension_of, file_extension, file_stem, stem_of};
use crate::script::{owned, text_eq};
use crate::text::{chars_of, debug_quoted, debug_quoted_spec, decimal, push_decimal, push_str};

verus! {

broadcast use vstd::string::group_string_axioms;

/// Standard base64 (RFC 4648 alphabet, `=` padding) of some bytes.
pub uninterp spec fn base64_standard(bytes: Seq<u8>) -> Seq<char>;

/// The bytes that a standard base64 text decodes to, or None when the text
/// is not canonical padded base64.
pub uninterp spec fn base64_standard_decode(text: Seq<char>) -> Option<Seq<u8>>;

/// Room for the encoding of `n` bytes (`4 * ceil(n / 3)` characters) in a `usize`.
pub open spec fn encoded_len_fits(n: nat) -> bool {
    (n / 3) * 4 + (if n % 3 > 0 {
        4int
    } else {
        0int
    }) <= usize::MAX
}

/// `base64::engine::general_purpose::STANDARD.encode`: the padded
/// standard-alphabet encoding of `bytes`, named `base64_standard` (the
/// alphabet itself is not written out here). Its output is canonical, so
/// the same engine decodes it back to `bytes`. It panics when the encoded
/// length overflows `usize`, which `requires` rules out.
#[verifier::external_body]
pub(crate) fn encode_b64(bytes: &[u8]) -> (r: String)
    requires
        encoded_len_fits(bytes@.len()),
    ensures
        r@ == base64_standard(bytes@),
        base64_standard_decode(r@) == Some(bytes@),
{
    base64::engine::general_purpose::STANDARD.encode(bytes)
}

/// Why a text is not canonical padded base64: the cases of base64's
/// `DecodeError`, with the offsets, bytes and lengths it reports.
#[derive(Clone, Copy, Debug, PartialEq, Eq, Structural)]
pub enum Base64Fault {
    /// A byte outside the alphabet (or misplaced padding) at `offset`.
    InvalidByte { offset: usize, byte: u8 },
    /// The count of base64 symbols cannot end a quad.
    InvalidLength { len: usize },
    /// The last symbol has bits set that decoding would drop.
    InvalidLastSymbol { offset: usize, byte: u8 },
    /// Padding missing or not canonical.
    InvalidPadding,
}

/// `DecodeError`'s `Display` text for each case.
pub open spec fn base64_fault_text(f: Base64Fault) -> Seq<char> {
    match f {
        Base64Fault::InvalidByte { offset, byte } => "Invalid symbol "@ + decimal(byte as nat)
            + ", offset "@ + decimal(offset as nat) + "."@,
        Base64Fault::InvalidLength { len } => "Invalid input length: "@ + decimal(len as nat),
        Base64Fault::InvalidLastSymbol { offset, byte } => "Invalid last symbol "@ + decimal(
            byte as nat,
        ) + ", offset "@ + decimal(offset as nat) + "."@,
        Base64Fault::InvalidPadding => "Invalid padding"@,
    }
}

impl Base64Fault {
    /// The error's message, as base64 words it.
    pub fn message(&self) -> (m: String)
        ensures
            m@ == base64_fault_text(*self),
    {
        let mut m = String::new();
        match *self {
            Base64Fault::InvalidByte { offset, byte } => {
                push_str(&mut m, "Invalid symbol ");
                push_decimal(&mut m, byte as u64);
                push_str(&mut m, ", offset ");
                push_decimal(&mut m, offset as u64);
                push_str(&mut m, ".");
            },
            Base64Fault::InvalidLength { len } => {
                push_str(&mut m, "Invalid input length: ");
                push_decimal(&mut m, len as u64);
            },
            Base64Fault::InvalidLastSymbol { offset, byte } => {
                push_str(&mut m, "Invalid last symbol ");
                push_decimal(&mut m, byte as u64);
                push_str(&mut m, ", offset ");
                push_decimal(&mut m, offset as u64);
                push_str(&mut m, ".");
            },
            Base64Fault::InvalidPadding => {
                push_str(&mut m, "Invalid padding");
            },
        }
        m
    }
}

/// `base64::engine::general_purpose::STANDARD.decode`: it succeeds exactly
/// when `base64_standard_decode` has a value for the text, and then returns
/// those bytes. Its `DecodeError` is handed on case by case, fields moved;
/// which case comes for a given bad text is not stated.
#[verifier::external_body]
pub(crate) fn decode_b64(text: &str) -> (r: Result<Vec<u8>, Base64Fault>)
    ensures
        (r is Ok) == (base64_standard_decode(text@) is Some),
        r matches Ok(v) ==> v@ == base64_standard_decode(text@)->0,
{
    match base64::engine::general_purpose::STANDARD.decode(text) {
        Ok(v) => Ok(v),
        Err(DecodeError::InvalidByte(offset, byte)) => Err(Base64Fault::InvalidByte { offset, byte }),
        Err(DecodeError::InvalidLength(len)) => Err(Base64Fault::InvalidLength { len }),
        Err(DecodeError::InvalidLastSymbol(offset, byte)) => Err(Base64Fault::InvalidLastSymbol { offset, byte }),
        Err(DecodeError::InvalidPadding) => Err(Base64Fault::InvalidPadding),
    }
}

/// Aspect ratios the image endpoints enumerate.
#[derive(Clone, Copy, Debug, PartialEq, Eq, Structural)]
#[allow(non_camel_case_types)]
pub enum AspectRatio {
    R1x1,
    R3x4,
    R4x3,
    R9x16,
    R16x9,
    R2x3,
    R3x2,
    R9x19_5,
    R19_5x9,
    R9x20,
    R20x9,
    R1x2,
    R2x1,
    /// Let the model pick framing from the prompt.
    Auto,
}

pub open spec fn aspect_text(a: AspectRatio) -> Seq<char> {
    match a {
        AspectRatio::R1x1 => "1:1"@,
        AspectRatio::R3x4 => "3:4"@,
        AspectRatio::R4x3 => "4:3"@,
        AspectRatio::R9x16 => "9:16"@,
        AspectRatio::R16x9 => "16:9"@,
        AspectRatio::R2x3 => "2:3"@,
        AspectRatio::R3x2 => "3:2"@,
        AspectRatio::R9x19_5 => "9:19.5"@,
        AspectRatio::R19_5x9 => "19.5:9"@,
        AspectRatio::R9x20 => "9:20"@,
        AspectRatio::R20x9 => "20:9"@,
        AspectRatio::R1x2 => "1:2"@,
        AspectRatio::R2x1 => "2:1"@,
        AspectRatio::Auto => "auto"@,
    }
}

impl AspectRatio {
    /// The wire name of the ratio (`"9:16"`, `"auto"`, …).
    pub fn as_str(&self) -> (s: &'static str)
        ensures
            s@ == aspect_text(*self),
    {
        match self {
            AspectRatio::R1x1 => "1:1",
            AspectRatio::R3x4 => "3:4",
            AspectRatio::R4x3 => "4:3",
            AspectRatio::R9x16 => "9:16",
            AspectRatio::R16x9 => "16:9",
            AspectRatio::R2x3 => "2:3",
            AspectRatio::R3x2 => "3:2",
            AspectRatio::R9x19_5 => "9:19.5",
            AspectRatio::R19_5x9 => "19.5:9",
            AspectRatio::R9x20 => "9:20",
            AspectRatio::R20x9 => "20:9",
            AspectRatio::R1x2 => "1:2",
            AspectRatio::R2x1 => "2:1",
            AspectRatio::Auto => "auto",
        }
    }
}

/// The ratio whose wire name is `s`, if any.
pub open spec fn parse_aspect_spec(s: Seq<char>) -> Option<AspectRatio> {
    if s == "1:1"@ {
        Some(AspectRatio::R1x1)
    } else if s == "3:4"@ {
        Some(AspectRatio::R3x4)
    } else if s == "4:3"@ {
        Some(AspectRatio::R4x3)
    } else if s == "9:16"@ {
        Some(AspectRatio::R9x16)
    } else if s == "16:9"@ {
        Some(AspectRatio::R16x9)
    } else if s == "2:3"@ {
        Some(AspectRatio::R2x3)
    } else if s == "3:2"@ {
        Some(AspectRatio::R3x2)
    } else if s == "9:19.5"@ {
        Some(AspectRatio::R9x19_5)
    } else if s == "19.5:9"@ {
        Some(AspectRatio::R19_5x9)
    } else if s == "9:20"@ {
        Some(AspectRatio::R9x20)
    } else if s == "20:9"@ {
        Some(AspectRatio::R20x9)
    } else if s == "1:2"@ {
        Some(AspectRatio::R1x2)
    } else if s == "2:1"@ {
        Some(AspectRatio::R2x1)
    } else if s == "auto"@ {
        Some(AspectRatio::Auto)
    } else {
        None
    }
}

/// Read a ratio from its wire name; anything else is refused.
pub fn parse_aspect(s: &str) -> (r: Result<AspectRatio, GenAiError>)
    ensures
        match parse_aspect_spec(s@) {
            Some(a) => r == Ok::<AspectRatio, GenAiError>(a),
            None => r matches Err(e) && e@ == (GenAiErrorModel::UnknownAspect { raw: s@ }),
        },
{
    if text_eq(s, "1:1") {
        Ok(AspectRatio::R1x1)
    } else if text_eq(s, "3:4") {
        Ok(AspectRatio::R3x4)
    } else if text_eq(s, "4:3") {
        Ok(AspectRatio::R4x3)
    } else if text_eq(s, "9:16") {
        Ok(AspectRatio::R9x16)
    } else if text_eq(s, "16:9") {
        Ok(AspectRatio::R16x9)
    } else if text_eq(s, "2:3") {
        Ok(AspectRatio::R2x3)
    } else if text_eq(s, "3:2") {
        Ok(AspectRatio::R3x2)
    } else if text_eq(s, "9:19.5") {
        Ok(AspectRatio::R9x19_5)
    } else if text_eq(s, "19.5:9") {
        Ok(AspectRatio::R19_5x9)
    } else if text_eq(s, "9:20") {
        Ok(AspectRatio::R9x20)
    } else if text_eq(s, "20:9") {
        Ok(AspectRatio::R20x9)
    } else if text_eq(s, "1:2") {
        Ok(AspectRatio::R1x2)
    } else if text_eq(s, "2:1") {
        Ok(AspectRatio::R2x1)
    } else if text_eq(s, "auto") {
        Ok(AspectRatio::Auto)
    } else {
        Err(GenAiError::UnknownAspect { raw: owned(s) })
    }
}

/// Every ratio reads back from its own wire name, and a name that reads as
/// a ratio is that ratio's wire name.
pub proof fn lemma_aspect_roundtrip(a: AspectRatio, s: Seq<char>)
    ensures
        parse_aspect_spec(aspect_text(a)) == Some(a),
        parse_aspect_spec(s) matches Some(b) ==> aspect_text(b) == s,
{
    reveal_strlit("1:1");
    reveal_strlit("3:4");
    reveal_strlit("4:3");
    reveal_strlit("9:16");
    reveal_strlit("16:9");
    reveal_strlit("2:3");
    reveal_strlit("3:2");
    reveal_strlit("9:19.5");
    reveal_strlit("19.5:9");
    reveal_strlit("9:20");
    reveal_strlit("20:9");
    reveal_strlit("1:2");
    reveal_strlit("2:1");
    reveal_strlit("auto");
    assert("1:1"@ =~= seq!['1', ':', '1']);
    assert("3:4"@ =~= seq!['3', ':', '4']);
    assert("4:3"@ =~= seq!['4', ':', '3']);
    assert("9:16"@ =~= seq!['9', ':', '1', '6']);
    assert("16:9"@ =~= seq!['1', '6', ':', '9']);
    assert("2:3"@ =~= seq!['2', ':', '3']);
    assert("3:2"@ =~= seq!['3', ':', '2']);
    assert("9:19.5"@ =~= seq!['9', ':', '1', '9', '.', '5']);
    assert("19.5:9"@ =~= seq!['1', '9', '.', '5', ':', '9']);
    assert("9:20"@ =~= seq!['9', ':', '2', '0']);
    assert("20:9"@ =~= seq!['2', '0', ':', '9']);
    assert("1:2"@ =~= seq!['1', ':', '2']);
    assert("2:1"@ =~= seq!['2', ':', '1']);
    assert("auto"@ =~= seq!['a', 'u', 't', 'o']);
    match a {
        AspectRatio::R1x1 => {
            assert(parse_aspect_spec("1:1"@) == Some(AspectRatio::R1x1));
        },
        AspectRatio::R3x4 => {
            assert(parse_aspect_spec("3:4"@) == Some(AspectRatio::R3x4));
        },
        AspectRatio::R4x3 => {
            assert(parse_aspect_spec("4:3"@) == Some(AspectRatio::R4x3));
        },
        AspectRatio::R9x16 => {
            assert(parse_aspect_spec("9:16"@) == Some(AspectRatio::R9x16));
        },
        AspectRatio::R16x9 => {
            assert(parse_aspect_spec("16:9"@) == Some(AspectRatio::R16x9));
        },
        AspectRatio::R2x3 => {
            assert(parse_aspect_spec("2:3"@) == Some(AspectRatio::R2x3));
        },
        AspectRatio::R3x2 => {
            assert(parse_aspect_spec("3:2"@) == Some(AspectRatio::R3x2));
        },
        AspectRatio::R9x19_5 => {
            assert(parse_aspect_spec("9:19.5"@) == Some(AspectRatio::R9x19_5));
        },
        AspectRatio::R19_5x9 => {
            assert(parse_aspect_spec("19.5:9"@) == Some(AspectRatio::R19_5x9));
        },
        AspectRatio::R9x20 => {
            assert(parse_aspect_spec("9:20"@) == Some(AspectRatio::R9x20));
        },
        AspectRatio::R20x9 => {
            assert(parse_aspect_spec("20:9"@) == Some(AspectRatio::R20x9));
        },
        AspectRatio::R1x2 => {
            assert(parse_aspect_spec("1:2"@) == Some(AspectRatio::R1x2));
        },
        AspectRatio::R2x1 => {
            assert(parse_aspect_spec("2:1"@) == Some(AspectRatio::R2x1));
        },
        AspectRatio::Auto => {
            assert(parse_aspect_spec("auto"@) == Some(AspectRatio::Auto));
        },
    }
}

impl std::str::FromStr for AspectRatio {
    type Err = GenAiError;

    fn from_str(s: &str) -> (r: Result<AspectRatio, GenAiError>)
        ensures
            match parse_aspect_spec(s@) {
                Some(a) => r == Ok::<AspectRatio, GenAiError>(a),
                None => r matches Err(e) && e@ == (GenAiErrorModel::UnknownAspect { raw: s@ }),
            },
    {
        parse_aspect(s)
    }
}

/// One still-image request. Each provider consumes the fields it supports
/// and rejects what it cannot honour (no silent drops).
#[derive(Clone, Debug)]
pub struct ImageRequest {
    pub prompt: String,
    /// Explicit model id; `None` = the provider's default.
    pub model: Option<String>,
    /// Variants to generate (grok ≤ 10, imagen ≤ 4).
    pub n: u8,
    pub aspect: AspectRatio,
    /// Local images the model should condition on (grok only), as paths.
    pub reference_images: Vec<String>,
}

/// A generated still plus whatever the provider said about it.
#[derive(Debug)]
pub struct GeneratedImage {
    pub bytes: Vec<u8>,
    /// Grok rewrites prompts before rendering; surfaced for prompt QC.
    pub revised_prompt: Option<String>,
}

/// Why an image request failed.
#[derive(Debug, PartialEq, Eq)]
pub enum GenAiError {
    UnknownAspect { raw: String },
    ImagenCount { n: u8 },
    ImagenReferences,
    ImagenAspect { aspect: AspectRatio },
    ImagenNoImages,
    ImagenMissingBytes,
    GrokCount { n: u8 },
    GrokReferences { count: usize },
    GrokNoImages,
    GrokNoSource,
    InvalidBase64(Base64Fault),
}

pub enum GenAiErrorModel {
    UnknownAspect { raw: Seq<char> },
    ImagenCount { n: u8 },
    ImagenReferences,
    ImagenAspect { aspect: AspectRatio },
    ImagenNoImages,
    ImagenMissingBytes,
    GrokCount { n: u8 },
    GrokReferences { count: usize },
    GrokNoImages,
    GrokNoSource,
    InvalidBase64 { fault: Base64Fault },
}

impl View for GenAiError {
    type V = GenAiErrorModel;

    open spec fn view(&self) -> GenAiErrorModel {
        match self {
            GenAiError::UnknownAspect { raw } => GenAiErrorModel::UnknownAspect { raw: raw@ },
            GenAiError::ImagenCount { n } => GenAiErrorModel::ImagenCount { n: *n },
            GenAiError::ImagenReferences => GenAiErrorModel::ImagenReferences,
            GenAiError::ImagenAspect { aspect } => GenAiErrorModel::ImagenAspect { aspect: *aspect },
            GenAiError::ImagenNoImages => GenAiErrorModel::ImagenNoImages,
            GenAiError::ImagenMissingBytes => GenAiErrorModel::ImagenMissingBytes,
            GenAiError::GrokCount { n } => GenAiErrorModel::GrokCount { n: *n },
            GenAiError::GrokReferences { count } => GenAiErrorModel::GrokReferences {
                count: *count,
            },
            GenAiError::GrokNoImages => GenAiErrorModel::GrokNoImages,
            GenAiError::GrokNoSource => GenAiErrorModel::GrokNoSource,
            GenAiError::InvalidBase64(f) => GenAiErrorModel::InvalidBase64 { fault: *f },
        }
    }
}

/// The human-readable text of an error (base64 failures in the decoder's
/// own words).
pub open spec fn genai_message(e: GenAiErrorModel) -> Seq<char> {
    match e {
        GenAiErrorModel::UnknownAspect { raw } => "unknown aspect ratio "@ + debug_quoted_spec(raw)
            + " (expected one of 1:1, 3:4, 4:3, 9:16, 16:9, 2:3, 3:2, 9:19.5, 19.5:9, 9:20, 20:9, 1:2, 2:1, auto)"@,
        GenAiErrorModel::ImagenCount { n } => "imagen generates 1..=4 images per request, got "@
            + decimal(n as nat),
        GenAiErrorModel::ImagenReferences => "imagen takes no reference images \u{2014} use the grok provider for reference-conditioned stills"@,
        GenAiErrorModel::ImagenAspect { aspect } => "imagen supports aspect ratios 1:1, 3:4, 4:3, 9:16, 16:9 (got "@
            + aspect_text(aspect) + ")"@,
        GenAiErrorModel::ImagenNoImages => "imagen returned no images \u{2014} likely a safety-filter rejection (named real people, branded characters, explicit content). Rewrite the prompt or switch to the grok provider."@,
        GenAiErrorModel::ImagenMissingBytes => "imagen prediction had no image bytes"@,
        GenAiErrorModel::GrokCount { n } => "grok generates 1..=10 images per request, got "@
            + decimal(n as nat),
        GenAiErrorModel::GrokReferences { count } => "grok honors at most 7 reference images, got "@
            + decimal(count as nat),
        GenAiErrorModel::GrokNoImages => "grok returned no images"@,
        GenAiErrorModel::GrokNoSource => "grok image had neither b64_json nor url"@,
        GenAiErrorModel::InvalidBase64 { fault } => base64_fault_text(fault),
    }
}

impl GenAiError {
    /// The error's message.
    pub fn message(&self) -> (m: String)
        ensures
            m@ == genai_message(self@),
    {
        let mut m = String::new();
        match self {
            GenAiError::UnknownAspect { raw } => {
                push_str(&mut m, "unknown aspect ratio ");
                let q = debug_quoted(raw.as_str());
                push_str(&mut m, q.as_str());
                push_str(
                    &mut m,
                    " (expected one of 1:1, 3:4, 4:3, 9:16, 16:9, 2:3, 3:2, 9:19.5, 19.5:9, 9:20, 20:9, 1:2, 2:1, auto)",
                );
            },
            GenAiError::ImagenCount { n } => {
                push_str(&mut m, "imagen generates 1..=4 images per request, got ");
                push_decimal(&mut m, *n as u64);
            },
            GenAiError::ImagenReferences => {
                push_str(
                    &mut m,
                    "imagen takes no reference images \u{2014} use the grok provider for reference-conditioned stills",
                );
            },
            GenAiError::ImagenAspect { aspect } => {
                push_str(&mut m, "imagen supports aspect ratios 1:1, 3:4, 4:3, 9:16, 16:9 (got ");
                push_str(&mut m, aspect.as_str());
                push_str(&mut m, ")");
            },
            GenAiError::ImagenNoImages => {
                push_str(
                    &mut m,
                    "imagen returned no images \u{2014} likely a safety-filter rejection (named real people, branded characters, explicit content). Rewrite the prompt or switch to the grok provider.",
                );
            },
            GenAiError::ImagenMissingBytes => {
                push_str(&mut m, "imagen prediction had no image bytes");
            },
            GenAiError::GrokCount { n } => {
                push_str(&mut m, "grok generates 1..=10 images per request, got ");
                push_decimal(&mut m, *n as u64);
            },
            GenAiError::GrokReferences { count } => {
                push_str(&mut m, "grok honors at most 7 reference images, got ");
                push_decimal(&mut m, *count as u64);
            },
            GenAiError::GrokNoImages => {
                push_str(&mut m, "grok returned no images");
            },
            GenAiError::GrokNoSource => {
                push_str(&mut m, "grok image had neither b64_json nor url");
            },
            GenAiError::InvalidBase64(f) => {
                m = f.message();
            },
        }
        m
    }
}

/// The mime subtype a reference image is sent as: `jpeg` for `.jpg`/`.jpeg`,
/// `webp` for `.webp`, `png` otherwise (extension compared ASCII-case-insensitively).
pub open spec fn image_mime_spec(ext: Option<Seq<char>>) -> Seq<char> {
    match ext {
        Some(e) => {
            let l = e.map_values(|c: char| crate::text::ascii_lower(c));
            if l == "jpg"@ || l == "jpeg"@ {
                "jpeg"@
            } else if l == "webp"@ {
                "webp"@
            } else {
                "png"@
            }
        },
        None => "png"@,
    }
}

/// The subtype follows the extension's ASCII lower case: `jpg` and `jpeg`
/// (in any case) are sent as `jpeg`, `webp` as `webp`, and every other
/// extension, or none, as `png`.
pub proof fn lemma_image_mime_by_extension(e: Seq<char>)
    ensures
        (e.map_values(|c: char| crate::text::ascii_lower(c)) == "jpg"@
            || e.map_values(|c: char| crate::text::ascii_lower(c)) == "jpeg"@) ==> image_mime_spec(
            Some(e),
        ) == "jpeg"@,
        e.map_values(|c: char| crate::text::ascii_lower(c)) == "webp"@ ==> image_mime_spec(Some(e))
            == "webp"@,
        (e.map_values(|c: char| crate::text::ascii_lower(c)) != "jpg"@
            && e.map_values(|c: char| crate::text::ascii_lower(c)) != "jpeg"@
            && e.map_values(|c: char| crate::text::ascii_lower(c)) != "webp"@) ==> image_mime_spec(
            Some(e),
        ) == "png"@,
        image_mime_spec(None) == "png"@,
{
    reveal_strlit("jpg");
    reveal_strlit("jpeg");
    reveal_strlit("webp");
}

fn lowercase_ascii(s: &str) -> (r: String)
    ensures
        r@ == s@.map_values(|c: char| crate::text::ascii_lower(c)),
{
    let cs = chars_of(s);
    let mut r = String::new();
    let mut i: usize = 0;
    while i < cs.len()
        invariant
            i <= cs@.len(),
            cs@ == s@,
            r@ == cs@.take(i as int).map_values(|c: char| crate::text::ascii_lower(c)),
        decreases cs@.len() - i,
    {
        let c = cs[i];
        let l = if 'A' <= c && c <= 'Z' {
            ((c as u32) + 32) as u8 as char
        } else {
            c
        };
        r.push(l);
        i = i + 1;
        assert(r@ =~= cs@.take(i as int).map_values(|c: char| crate::text::ascii_lower(c)));
    }
    assert(cs@.take(i as int) =~= cs@);
    r
}

/// See [`image_mime_spec`].
pub fn image_mime(ext: Option<&str>) -> (m: &'static str)
    ensures
        m@ == image_mime_spec(match ext {
            Some(e) => Some(e@),
            None => None,
        }),
{
    match ext {
        Some(e) => {
            let l = lowercase_ascii(e);
            if text_eq(l.as_str(), "jpg") || text_eq(l.as_str(), "jpeg") {
                "jpeg"
            } else if text_eq(l.as_str(), "webp") {
                "webp"
            } else {
                "png"
            }
        },
        None => "png",
    }
}

/// Encode a local image's bytes as a `data:image/<mime>;base64,…` URL for a
/// JSON body; `ext` is the file's extension.
pub fn data_url(ext: Option<&str>, bytes: &[u8]) -> (u: String)
    requires
        encoded_len_fits(bytes@.len()),
    ensures
        u@ == "data:image/"@ + image_mime_spec(match ext {
            Some(e) => Some(e@),
            None => None,
        }) + ";base64,"@ + base64_standard(bytes@),
        base64_standard_decode(base64_standard(bytes@)) == Some(bytes@),
{
    let mut u = owned("data:image/");
    push_str(&mut u, image_mime(ext));
    push_str(&mut u, ";base64,");
    let b = encode_b64(bytes);
    push_str(&mut u, b.as_str());
    u
}

/// Decode provider-sent base64 image bytes.
pub fn decode_image(b64: &str) -> (r: Result<Vec<u8>, GenAiError>)
    ensures
        match base64_standard_decode(b64@) {
            Some(v) => r matches Ok(w) && w@ == v,
            None => r matches Err(e) && e@ is InvalidBase64,
        },
{
    match decode_b64(b64) {
        Ok(v) => Ok(v),
        Err(e) => Err(GenAiError::InvalidBase64(e)),
    }
}

/// The wire value of a ratio in a request body: omitted for `Auto`.
pub fn payload_aspect(a: AspectRatio) -> (r: Option<&'static str>)
    ensures
        match r {
            Some(s) => a != AspectRatio::Auto && s@ == aspect_text(a),
            None => a == AspectRatio::Auto,
        },
{
    match a {
        AspectRatio::Auto => None,
        _ => Some(a.as_str()),
    }
}

/// Where variant `index` (counting from zero) of a multi-image request is
/// written: `<stem>_v<index + 1>.<extension>` beside the requested output
/// file `name` (`name` is empty where the output path has no file name).
pub open spec fn variant_name_spec(name: Seq<char>, index: nat) -> Seq<char> {
    stem_of(name) + "_v"@ + decimal(index + 1) + "."@ + match extension_of(name) {
        Some(e) => e,
        None => seq![],
    }
}

pub fn variant_file_name(name: &str, index: usize) -> (r: String)
    requires
        index < usize::MAX,
    ensures
        r@ == variant_name_spec(name@, index as nat),
{
    let mut r = file_stem(name);
    push_str(&mut r, "_v");
    push_decimal(&mut r, (index + 1) as u64);
    push_str(&mut r, ".");
    match file_extension(name) {
        Some(e) => push_str(&mut r, e.as_str()),
        None => {},
    }
    r
}

} // verus!
