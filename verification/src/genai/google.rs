//! Google Imagen stills: the request rules and the reading of its
//! `:predict` response. Safe-stills provider: a real aspect parameter, but
//! no reference images, and a safety filter that rejects named real people.

use vstd::prelude::*;
use super::{AspectRatio, GenAiError, GenAiErrorModel, GeneratedImage, ImageRequest, decode_image, base64_standard_decode};

verus! {

pub const DEFAULT_MODEL: &'static str = "imagen-4.0-generate-001";

pub const MAX_IMAGES_PER_REQUEST: u8 = 4;

/// The subset of [`AspectRatio`] Imagen accepts.
pub open spec fn supported_aspect(a: AspectRatio) -> bool {
    a == AspectRatio::R1x1 || a == AspectRatio::R3x4 || a == AspectRatio::R4x3 || a
        == AspectRatio::R9x16 || a == AspectRatio::R16x9
}

/// Does Imagen accept this ratio?
pub fn supports_aspect(a: AspectRatio) -> (b: bool)
    ensures
        b == supported_aspect(a),
{
    a == AspectRatio::R1x1 || a == AspectRatio::R3x4 || a == AspectRatio::R4x3 || a
        == AspectRatio::R9x16 || a == AspectRatio::R16x9
}

/// Imagen's request rules, checked in order: 1..=4 images, no reference
/// images, and a supported ratio (or `Auto`).
pub open spec fn check_request_spec(n: u8, refs: nat, aspect: AspectRatio) -> Option<GenAiErrorModel> {
    if n == 0 || n > MAX_IMAGES_PER_REQUEST {
        Some(GenAiErrorModel::ImagenCount { n })
    } else if refs > 0 {
        Some(GenAiErrorModel::ImagenReferences)
    } else if aspect != AspectRatio::Auto && !supported_aspect(aspect) {
        Some(GenAiErrorModel::ImagenAspect { aspect })
    } else {
        None
    }
}

/// Refuse what Imagen cannot honour (see [`check_request_spec`]).
pub fn check_request(req: &ImageRequest) -> (r: Result<(), GenAiError>)
    ensures
        match check_request_spec(req.n, req.reference_images@.len(), req.aspect) {
            Some(e) => r matches Err(f) && f@ == e,
            None => r is Ok,
        },
{
    if req.n == 0 || req.n > MAX_IMAGES_PER_REQUEST {
        return Err(GenAiError::ImagenCount { n: req.n });
    }
    if req.reference_images.len() > 0 {
        return Err(GenAiError::ImagenReferences);
    }
    if req.aspect != AspectRatio::Auto && !supports_aspect(req.aspect) {
        return Err(GenAiError::ImagenAspect { aspect: req.aspect });
    }
    Ok(())
}

pub open spec fn opt_str_view(o: Option<String>) -> Option<Seq<char>> {
    match o {
        Some(s) => Some(s@),
        None => None,
    }
}

/// A prediction that carries decodable image bytes.
pub open spec fn prediction_ok(p: Option<String>) -> bool {
    p matches Some(b) && base64_standard_decode(b@) is Some
}

/// The images of a `:predict` response, given each prediction's
/// `bytesBase64Encoded` field: an empty list is the safety filter firing;
/// otherwise the first prediction without bytes, or with bad base64, fails
/// the whole call.
pub fn images_from_predictions(predictions: &Vec<Option<String>>) -> (r: Result<Vec<GeneratedImage>, GenAiError>)
    ensures
        predictions@.len() == 0 ==> (r matches Err(e) && e@ is ImagenNoImages),
        predictions@.len() > 0 ==> match r {
            Ok(imgs) => {
                &&& imgs@.len() == predictions@.len()
                &&& forall|i: int|
                    0 <= i < imgs@.len() ==> {
                        &&& #[trigger] predictions@[i] matches Some(b)
                        &&& base64_standard_decode(b@) == Some(imgs@[i].bytes@)
                        &&& imgs@[i].revised_prompt is None
                    }
            },
            Err(e) => exists|k: int|
                0 <= k < predictions@.len() && (forall|j: int|
                    0 <= j < k ==> prediction_ok(#[trigger] predictions@[j])) && !prediction_ok(
                    predictions@[k],
                ) && (if predictions@[k] is None {
                    e@ is ImagenMissingBytes
                } else {
                    e@ is InvalidBase64
                }),
        },
{
    if predictions.len() == 0 {
        return Err(GenAiError::ImagenNoImages);
    }
    let mut out: Vec<GeneratedImage> = Vec::new();
    let mut i: usize = 0;
    while i < predictions.len()
        invariant
            i <= predictions@.len(),
            out@.len() == i,
            forall|k: int| 0 <= k < i ==> prediction_ok(#[trigger] predictions@[k]),
            forall|k: int|
                0 <= k < i ==> {
                    &&& #[trigger] predictions@[k] matches Some(b)
                    &&& base64_standard_decode(b@) == Some(out@[k].bytes@)
                    &&& out@[k].revised_prompt is None
                },
        decreases predictions@.len() - i,
    {
        match &predictions[i] {
            None => {
                assert(!prediction_ok(predictions@[i as int]));
                return Err(GenAiError::ImagenMissingBytes);
            },
            Some(b) => {
                let bytes = match decode_image(b.as_str()) {
                    Ok(v) => v,
                    Err(e) => {
                        assert(!prediction_ok(predictions@[i as int]));
                        return Err(e);
                    },
                };
                out.push(GeneratedImage { bytes, revised_prompt: None });
            },
        }
        i = i + 1;
    }
    Ok(out)
}

} // verus!
